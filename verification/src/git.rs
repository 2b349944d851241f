//! Read the checked-out branch from the text of `.git/HEAD`, with no `git`
//! binary. This is the fallback for environments with no `git` on `PATH` (a
//! minimal container), and its text parsing assumes the classic "files" ref
//! layout: a repo on the newer `reftable` backend writes a
//! `refs/heads/.invalid` sentinel there, which is rejected (leading-dot
//! refnames are invalid per `git check-ref-format`) so it degrades to the
//! default-branch no-op instead of a bogus pin. The caller reads the files;
//! this module decides what they mean.

use vstd::prelude::*;

use crate::text::{concat, from_chars, spec_strip_prefix, spec_trim, str_eq, strip_prefix, to_chars, trim};

verus! {

broadcast use vstd::string::group_string_axioms;

/// Why a checkout yielded no branch name.
#[derive(Debug, PartialEq, Eq)]
pub enum NoBranch {
    /// No readable `.git` at the root: not a checkout.
    NotACheckout,
    /// `.git` is a pointer file naming a git dir that cannot be read from here,
    /// carried as the path it names. A linked worktree or submodule stores HEAD
    /// there, so the branch is unknown rather than absent.
    UnreachableGitDir(String),
    /// HEAD names no branch: a detached checkout, or a ref-backend sentinel.
    Detached,
}

/// The mathematical value of a [`NoBranch`].
pub enum NoBranchView {
    NotACheckout,
    UnreachableGitDir(Seq<char>),
    Detached,
}

impl View for NoBranch {
    type V = NoBranchView;

    open spec fn view(&self) -> NoBranchView {
        match self {
            NoBranch::NotACheckout => NoBranchView::NotACheckout,
            NoBranch::UnreachableGitDir(p) => NoBranchView::UnreachableGitDir(p@),
            NoBranch::Detached => NoBranchView::Detached,
        }
    }
}

/// The diagnostic for an unreachable git dir: it names the path and both ways
/// out, on one line so CI reporters can render it as one annotation.
pub open spec fn unreachable_message(path: Seq<char>) -> Seq<char> {
    "cannot read the git dir that `.git` points to: "@ + path
        + ". This checkout is a linked worktree or a submodule, and that path is not visible from here. In a container it lies outside the mount. Mount it at the same path, or pass the branch as CURRENT_BRANCH."@
}

impl NoBranch {
    pub open spec fn spec_message(&self) -> Seq<char> {
        match self {
            NoBranch::NotACheckout => "no readable `.git` in the working directory"@,
            NoBranch::UnreachableGitDir(p) => unreachable_message(p@),
            NoBranch::Detached => "HEAD names no branch"@,
        }
    }

    /// The reason, as one line of text.
    pub fn message(&self) -> (r: String)
        ensures
            r@ == self.spec_message(),
    {
        match self {
            NoBranch::NotACheckout => String::from_str("no readable `.git` in the working directory"),
            NoBranch::UnreachableGitDir(path) => {
                let mut out = concat("cannot read the git dir that `.git` points to: ", path.as_str());
                out.append(
                    ". This checkout is a linked worktree or a submodule, and that path is not visible from here. In a container it lies outside the mount. Mount it at the same path, or pass the branch as CURRENT_BRANCH.",
                );
                out
            },
            NoBranch::Detached => String::from_str("HEAD names no branch"),
        }
    }
}

/// The branch a `.git/HEAD` text names: `ref: refs/heads/<branch>` gives the
/// branch; a raw commit id (detached HEAD), a leading-dot name (the `reftable`
/// sentinel), an empty name, or anything else gives none.
pub open spec fn spec_branch_from_head(head: Seq<char>) -> Option<Seq<char>> {
    match spec_strip_prefix(spec_trim(head), "ref:"@) {
        Some(r) => match spec_strip_prefix(spec_trim(r), "refs/heads/"@) {
            Some(b) => if b.len() > 0 && b[0] != '.' {
                Some(b)
            } else {
                None
            },
            None => None,
        },
        None => None,
    }
}

/// Parse `.git/HEAD`: `ref: refs/heads/<branch>` gives `Some(branch)`; a raw
/// commit id, the `reftable` `.invalid` sentinel, or anything else gives
/// `None`.
pub fn branch_from_head(head: &str) -> (r: Option<String>)
    ensures
        match spec_branch_from_head(head@) {
            Some(b) => r matches Some(s) && s@ == b,
            None => r is None,
        },
{
    let h = trim(&to_chars(head));
    let reference = match strip_prefix(&h, "ref:") {
        Some(r) => trim(&r),
        None => return None,
    };
    let branch = match strip_prefix(&reference, "refs/heads/") {
        Some(b) => b,
        None => return None,
    };
    if branch.len() > 0 && branch[0] != '.' {
        Some(from_chars(&branch))
    } else {
        None
    }
}

/// The git dir a `.git` pointer file names: the text after `gitdir:`, trimmed.
/// A linked worktree or a submodule holds such a file in place of a directory.
pub open spec fn spec_gitdir_target(pointer: Seq<char>) -> Option<Seq<char>> {
    match spec_strip_prefix(spec_trim(pointer), "gitdir:"@) {
        Some(rest) => Some(spec_trim(rest)),
        None => None,
    }
}

/// The git dir a `.git` pointer file names, if the text is a pointer.
pub fn gitdir_target(pointer: &str) -> (r: Option<String>)
    ensures
        match spec_gitdir_target(pointer@) {
            Some(t) => r matches Some(s) && s@ == t,
            None => r is None,
        },
{
    let p = trim(&to_chars(pointer));
    match strip_prefix(&p, "gitdir:") {
        Some(rest) => Some(from_chars(&trim(&rest))),
        None => None,
    }
}

/// What reading a checkout's HEAD says: `head` is the text of the HEAD file
/// (`None` when it could not be read), and `pointer_target` the git dir a
/// `.git` pointer file named (`None` when `.git` is a directory). An unreadable
/// HEAD behind a pointer is an unreachable git dir; an unreadable HEAD in a
/// plain checkout means no checkout; a readable HEAD that names no branch is a
/// detached checkout.
pub open spec fn spec_head_branch(head: Option<Seq<char>>, pointer_target: Option<Seq<char>>) -> Result<Seq<char>, NoBranchView> {
    match head {
        None => match pointer_target {
            Some(p) => Err(NoBranchView::UnreachableGitDir(p)),
            None => Err(NoBranchView::NotACheckout),
        },
        Some(h) => match spec_branch_from_head(h) {
            Some(b) => Ok(b),
            None => Err(NoBranchView::Detached),
        },
    }
}

/// The checked-out branch, from what reading the checkout found.
pub fn head_branch(head: Option<&str>, pointer_target: Option<&str>) -> (r: Result<String, NoBranch>)
    ensures
        spec_head_branch(
            match head {
                Some(h) => Some(h@),
                None => None,
            },
            match pointer_target {
                Some(p) => Some(p@),
                None => None,
            },
        ) == match r {
            Ok(b) => Ok(b@),
            Err(e) => Err(e@),
        },
{
    match head {
        None => match pointer_target {
            Some(p) => Err(NoBranch::UnreachableGitDir(String::from_str(p))),
            None => Err(NoBranch::NotACheckout),
        },
        Some(h) => match branch_from_head(h) {
            Some(b) => Ok(b),
            None => Err(NoBranch::Detached),
        },
    }
}

/// The branch `git rev-parse --abbrev-ref HEAD` printed: its output trimmed,
/// unless that is empty or `HEAD` (a detached checkout).
pub open spec fn spec_branch_from_rev_parse(stdout: Seq<char>) -> Option<Seq<char>> {
    let b = spec_trim(stdout);
    if b.len() > 0 && b != "HEAD"@ {
        Some(b)
    } else {
        None
    }
}

/// The branch the `git` binary reported, if it names one.
pub fn branch_from_rev_parse(stdout: &str) -> (r: Option<String>)
    ensures
        match spec_branch_from_rev_parse(stdout@) {
            Some(b) => r matches Some(s) && s@ == b,
            None => r is None,
        },
{
    let b = from_chars(&trim(&to_chars(stdout)));
    if b.as_str().is_empty() || str_eq(b.as_str(), "HEAD") {
        None
    } else {
        Some(b)
    }
}

/// The branch to resolve for, in order of authority: an explicit
/// `CURRENT_BRANCH` (trimmed, when not empty), then what the `git` binary
/// reported, then `.git/HEAD`, then the default branch. Only an unreachable
/// git dir is fatal: the branch is unknown there, not absent, so falling back
/// to the default branch would pass a feature branch off as a release.
pub open spec fn spec_current_branch(
    explicit: Option<Seq<char>>,
    from_git: Option<Seq<char>>,
    from_head: Result<Seq<char>, NoBranchView>,
    default_branch: Seq<char>,
) -> Result<Seq<char>, NoBranchView> {
    if explicit matches Some(e) && spec_trim(e).len() > 0 {
        Ok(spec_trim(explicit->0))
    } else if from_git is Some {
        Ok(from_git->0)
    } else {
        match from_head {
            Ok(b) => Ok(b),
            Err(NoBranchView::UnreachableGitDir(p)) => Err(NoBranchView::UnreachableGitDir(p)),
            Err(_) => Ok(default_branch),
        }
    }
}

/// The branch to resolve for, from the sources in order of authority.
pub fn current_branch(
    explicit: Option<&str>,
    from_git: Option<String>,
    from_head: Result<String, NoBranch>,
    default_branch: &str,
) -> (r: Result<String, NoBranch>)
    ensures
        spec_current_branch(
            match explicit {
                Some(e) => Some(e@),
                None => None,
            },
            match from_git {
                Some(g) => Some(g@),
                None => None,
            },
            match from_head {
                Ok(b) => Ok(b@),
                Err(e) => Err(e@),
            },
            default_branch@,
        ) == match r {
            Ok(b) => Ok(b@),
            Err(e) => Err(e@),
        },
{
    match explicit {
        Some(e) => {
            let t = trim(&to_chars(e));
            if t.len() > 0 {
                return Ok(from_chars(&t));
            }
        },
        None => {},
    }
    match from_git {
        Some(g) => return Ok(g),
        None => {},
    }
    match from_head {
        Ok(b) => Ok(b),
        Err(NoBranch::UnreachableGitDir(p)) => Err(NoBranch::UnreachableGitDir(p)),
        Err(_) => Ok(String::from_str(default_branch)),
    }
}

/// `$DEFAULT_BRANCH`, else `main`.
pub fn default_branch(configured: Option<String>) -> (r: String)
    ensures
        r@ == match configured {
            Some(c) => c@,
            None => "main"@,
        },
{
    match configured {
        Some(c) => c,
        None => String::from_str("main"),
    }
}

/// A branch read from HEAD is never empty and never starts with `.`, so a
/// ref-backend sentinel cannot pass for a branch.
pub proof fn lemma_head_branch_is_a_refname(head: Seq<char>)
    ensures
        spec_branch_from_head(head) matches Some(b) ==> b.len() > 0 && b[0] != '.',
{
}

/// An unreachable git dir is never taken for the default branch: it is the
/// only failure of the sources that ends branch detection.
pub proof fn lemma_unreachable_is_fatal(explicit: Option<Seq<char>>, default_branch: Seq<char>, path: Seq<char>)
    requires
        explicit is None || spec_trim(explicit->0).len() == 0,
    ensures
        spec_current_branch(explicit, None, Err(NoBranchView::UnreachableGitDir(path)), default_branch) == Err::<
            Seq<char>,
            NoBranchView,
        >(NoBranchView::UnreachableGitDir(path)),
        spec_current_branch(explicit, None, Err(NoBranchView::Detached), default_branch) == Ok::<Seq<char>, NoBranchView>(
            default_branch,
        ),
        spec_current_branch(explicit, None, Err(NoBranchView::NotACheckout), default_branch) == Ok::<
            Seq<char>,
            NoBranchView,
        >(default_branch),
{
}

/// The diagnostic for an unreachable git dir is a single line whenever the
/// path is, so a CI reporter renders it as one annotation.
pub proof fn lemma_unreachable_message_is_one_line(path: Seq<char>)
    requires
        !path.contains('\n'),
    ensures
        !unreachable_message(path).contains('\n'),
{
    let head = "cannot read the git dir that `.git` points to: "@;
    let tail = ". This checkout is a linked worktree or a submodule, and that path is not visible from here. In a container it lies outside the mount. Mount it at the same path, or pass the branch as CURRENT_BRANCH."@;
    reveal_strlit("cannot read the git dir that `.git` points to: ");
    reveal_strlit(". This checkout is a linked worktree or a submodule, and that path is not visible from here. In a container it lies outside the mount. Mount it at the same path, or pass the branch as CURRENT_BRANCH.");
    let m = unreachable_message(path);
    assert forall|i: int| 0 <= i < m.len() implies m[i] != '\n' by {
        if i < head.len() {
            assert(m[i] == head[i]);
        } else if i < head.len() + path.len() {
            assert(m[i] == path[i - head.len()]);
        } else {
            assert(m[i] == tail[i - head.len() - path.len()]);
        }
    }
}

} // verus!
