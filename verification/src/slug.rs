//! Branch name to registry-safe slug. This is the convention every ecosystem
//! resolves against, and it must match how the publish side names branch
//! artifacts (`sed 's/[^[:alnum:]]/-/g'` is the base): every non-alphanumeric
//! character becomes `-`, with no lowercasing and no collapsing of runs.

use vstd::prelude::*;

use crate::text::{push_char, str_eq};

verus! {

/// ASCII letters and digits.
pub open spec fn is_ascii_alnum(c: char) -> bool {
    ('a' <= c && c <= 'z') || ('A' <= c && c <= 'Z') || ('0' <= c && c <= '9')
}

/// What one branch character becomes in the slug.
pub open spec fn slug_char(c: char) -> char {
    if is_ascii_alnum(c) {
        c
    } else {
        '-'
    }
}

/// The slug of a branch name: each character mapped on its own.
pub open spec fn spec_sanitize(branch: Seq<char>) -> Seq<char> {
    branch.map_values(|c: char| slug_char(c))
}

/// Whether `s` is made only of slug characters (ASCII letters, digits, `-`).
pub open spec fn is_slug(s: Seq<char>) -> bool {
    forall|i: int| 0 <= i < s.len() ==> is_ascii_alnum(#[trigger] s[i]) || s[i] == '-'
}

pub fn is_ascii_alphanumeric(c: char) -> (r: bool)
    ensures
        r == is_ascii_alnum(c),
{
    ('a' <= c && c <= 'z') || ('A' <= c && c <= 'Z') || ('0' <= c && c <= '9')
}

/// Convert a branch name to its slug.
pub fn sanitize(branch: &str) -> (r: String)
    ensures
        r@ == spec_sanitize(branch@),
{
    let mut out = String::new();
    for c in it: branch.chars()
        invariant
            out@ == spec_sanitize(it.seq().take(it.index() as int)),
    {
        let ghost before = it.seq().take(it.index() as int);
        if is_ascii_alphanumeric(c) {
            push_char(&mut out, c);
        } else {
            push_char(&mut out, '-');
        }
        assert(it.seq().take(it.index() + 1) == before.push(c));
        assert(spec_sanitize(before.push(c)) =~= spec_sanitize(before).push(slug_char(c)));
    }
    out
}

/// Whether a branch is treated as a no-op (a release context, not a feature
/// branch): empty, a detached `HEAD`, or the default branch.
pub open spec fn spec_is_default_branch(branch: Seq<char>, default_branch: Seq<char>) -> bool {
    branch.len() == 0 || branch == "HEAD"@ || branch == default_branch
}

/// Whether a branch should be treated as a no-op: the default branch, a
/// detached `HEAD`, or empty.
pub fn is_default_branch(branch: &str, default_branch: &str) -> (r: bool)
    ensures
        r == spec_is_default_branch(branch@, default_branch@),
{
    branch.is_empty() || str_eq(branch, "HEAD") || str_eq(branch, default_branch)
}

/// The slug of any branch is made of slug characters only, has the branch's
/// length, and keeps every ASCII letter and digit where it stood.
pub proof fn lemma_sanitize_shape(branch: Seq<char>)
    ensures
        spec_sanitize(branch).len() == branch.len(),
        is_slug(spec_sanitize(branch)),
        forall|i: int|
            0 <= i < branch.len() && is_ascii_alnum(branch[i]) ==> #[trigger] spec_sanitize(branch)[i]
                == branch[i],
{
}

/// Sanitizing is idempotent: a slug is its own slug, so a branch already named
/// like its artifacts resolves against itself.
pub proof fn lemma_sanitize_idempotent(branch: Seq<char>)
    ensures
        spec_sanitize(spec_sanitize(branch)) == spec_sanitize(branch),
{
    assert(spec_sanitize(spec_sanitize(branch)) =~= spec_sanitize(branch));
}

/// A slug is its own slug.
pub proof fn lemma_slug_is_fixed_point(s: Seq<char>)
    requires
        is_slug(s),
    ensures
        spec_sanitize(s) == s,
{
    assert(spec_sanitize(s) =~= s);
}

/// The no-op decision: on its own default branch, whatever that branch is
/// called, `sync` is a no-op, and so on an empty branch or a detached `HEAD`;
/// on any other branch it is not, whatever the default branch is called.
pub proof fn lemma_default_branch_decision(branch: Seq<char>, default_branch: Seq<char>)
    ensures
        spec_is_default_branch(default_branch, default_branch),
        spec_is_default_branch(Seq::empty(), default_branch),
        spec_is_default_branch("HEAD"@, default_branch),
        branch.len() > 0 && branch != "HEAD"@ && branch != default_branch ==> !spec_is_default_branch(
            branch,
            default_branch,
        ),
{
}

} // verus!
