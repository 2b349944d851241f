//! Rewriters pin a resolved coordinate wherever it is referenced in the repo.

use vstd::prelude::*;

use crate::text::str_eq;
use crate::workspace::{SbdError, Workspace, WorkspaceView};

pub mod compose;
pub mod package_json;

use compose::Compose;
use package_json::PackageJson;

verus! {

/// A branch / pre-release reference found by `verify`, carried with its location
/// so reporters can annotate it (e.g. a GitHub Actions `file`/`line` annotation).
#[derive(Debug, PartialEq, Eq)]
pub struct Pin {
    pub file: String,
    pub line: Option<usize>,
    pub reference: String,
}

/// The mathematical value of a [`Pin`].
pub struct PinView {
    pub file: Seq<char>,
    pub line: Option<int>,
    pub reference: Seq<char>,
}

impl View for Pin {
    type V = PinView;

    open spec fn view(&self) -> PinView {
        PinView {
            file: self.file@,
            line: match self.line {
                Some(n) => Some(n as int),
                None => None,
            },
            reference: self.reference@,
        }
    }
}

/// A sequence of pins, by value.
pub open spec fn pins_view(pins: Seq<Pin>) -> Seq<PinView> {
    pins.map_values(|p: Pin| p@)
}

pub trait Rewriter {
    /// The coordinate kind this rewriter pins.
    spec fn spec_kind(&self) -> Seq<char>;

    /// The workspace after pinning references to `target` to `slug`, and
    /// whether anything changed; `None` when a manifest cannot be read.
    spec fn spec_rewrite(&self, ws: WorkspaceView, target: Seq<char>, slug: Seq<char>) -> Option<(WorkspaceView, bool)>;

    /// The branch / pre-release pins of `target`; `None` when a manifest
    /// cannot be read.
    spec fn spec_find_branch_pin(&self, ws: WorkspaceView, target: Seq<char>) -> Option<Seq<PinView>>;

    /// The coordinate kind this rewriter pins (matches a resolver's kind).
    fn kind(&self) -> (r: &'static str)
        ensures
            r@ == self.spec_kind(),
    ;

    /// Pin references to `target` to `slug` in this workspace's files of this
    /// kind. Returns whether anything changed; a workspace without the
    /// relevant files is unchanged.
    fn rewrite(&self, ws: &mut Workspace, target: &str, slug: &str) -> (r: Result<bool, SbdError>)
        ensures
            match self.spec_rewrite(old(ws)@, target@, slug@) {
                Some((w, changed)) => r matches Ok(c) && c == changed && final(ws)@ == w,
                None => r matches Err(e) && e is Manifest && final(ws)@ == old(ws)@,
            },
    ;

    /// Every branch / pre-release pin of `target` in this workspace's files of
    /// this kind (empty when clean). Powers `verify`.
    fn find_branch_pin(&self, ws: &Workspace, target: &str) -> (r: Result<Vec<Pin>, SbdError>)
        ensures
            match self.spec_find_branch_pin(ws@, target@) {
                Some(p) => r matches Ok(v) && pins_view(v@) == p,
                None => r matches Err(e) && e is Manifest,
            },
    ;
}

/// One of the rewriters sbd knows.
#[derive(Clone, Copy)]
pub enum AnyRewriter {
    PackageJson(PackageJson),
    Compose(Compose),
}

impl Rewriter for AnyRewriter {
    open spec fn spec_kind(&self) -> Seq<char> {
        match self {
            AnyRewriter::PackageJson(r) => r.spec_kind(),
            AnyRewriter::Compose(r) => r.spec_kind(),
        }
    }

    open spec fn spec_rewrite(&self, ws: WorkspaceView, target: Seq<char>, slug: Seq<char>) -> Option<(WorkspaceView, bool)> {
        match self {
            AnyRewriter::PackageJson(r) => r.spec_rewrite(ws, target, slug),
            AnyRewriter::Compose(r) => r.spec_rewrite(ws, target, slug),
        }
    }

    open spec fn spec_find_branch_pin(&self, ws: WorkspaceView, target: Seq<char>) -> Option<Seq<PinView>> {
        match self {
            AnyRewriter::PackageJson(r) => r.spec_find_branch_pin(ws, target),
            AnyRewriter::Compose(r) => r.spec_find_branch_pin(ws, target),
        }
    }

    fn kind(&self) -> (r: &'static str) {
        match self {
            AnyRewriter::PackageJson(r) => r.kind(),
            AnyRewriter::Compose(r) => r.kind(),
        }
    }

    fn rewrite(&self, ws: &mut Workspace, target: &str, slug: &str) -> (r: Result<bool, SbdError>) {
        match self {
            AnyRewriter::PackageJson(r) => r.rewrite(ws, target, slug),
            AnyRewriter::Compose(r) => r.rewrite(ws, target, slug),
        }
    }

    fn find_branch_pin(&self, ws: &Workspace, target: &str) -> (r: Result<Vec<Pin>, SbdError>) {
        match self {
            AnyRewriter::PackageJson(r) => r.find_branch_pin(ws, target),
            AnyRewriter::Compose(r) => r.find_branch_pin(ws, target),
        }
    }
}

/// Every rewriter sbd knows, in order: `package.json`, then Compose files.
pub open spec fn spec_all() -> Seq<AnyRewriter> {
    seq![AnyRewriter::PackageJson(PackageJson), AnyRewriter::Compose(Compose)]
}

/// Every rewriter sbd knows.
pub fn all() -> (r: Vec<AnyRewriter>)
    ensures
        r@ == spec_all(),
{
    let mut v: Vec<AnyRewriter> = Vec::new();
    v.push(AnyRewriter::PackageJson(PackageJson));
    v.push(AnyRewriter::Compose(Compose));
    assert(v@ =~= spec_all());
    v
}

/// The rewriters of `rewriters` that pin `kind`, in order.
pub open spec fn rewriters_of_kind(rewriters: Seq<AnyRewriter>, kind: Seq<char>) -> Seq<AnyRewriter> {
    rewriters.filter(|r: AnyRewriter| r.spec_kind() == kind)
}

/// The rewriters that pin a given coordinate kind.
pub open spec fn spec_for_kind(kind: Seq<char>) -> Seq<AnyRewriter> {
    rewriters_of_kind(spec_all(), kind)
}

/// The rewriters that pin a given coordinate kind.
pub fn for_kind(kind: &str) -> (r: Vec<AnyRewriter>)
    ensures
        r@ == spec_for_kind(kind@),
{
    let every = all();
    let mut out: Vec<AnyRewriter> = Vec::new();
    let mut i: usize = 0;
    while i < every.len()
        invariant
            every@ == spec_all(),
            i <= every.len(),
            out@ == rewriters_of_kind(every@.take(i as int), kind@),
        decreases every.len() - i,
    {
        let r = every[i];
        proof {
            assert(every@.take(i + 1).drop_last() =~= every@.take(i as int));
            assert(every@.take(i + 1).last() == r);
            reveal_with_fuel(Seq::filter, 1);
        }
        if str_eq(r.kind(), kind) {
            out.push(r);
        }
        i = i + 1;
    }
    assert(every@.take(every.len() as int) == every@);
    out
}

} // verus!
