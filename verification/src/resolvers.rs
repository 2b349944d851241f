//! Resolvers answer one question per artifact kind: does a branch artifact
//! exist for this coordinate? They are registry existence checks; no files are
//! touched here (that is the rewriters' job). The registry exchange itself is
//! done by the caller; this module holds what decides it.

use vstd::prelude::*;

use crate::text::str_eq;

pub mod npm;
pub mod oci;

use npm::Npm;
use oci::Oci;

verus! {

broadcast use vstd::string::group_string_axioms;

pub trait Resolver {
    /// The `.sync-branch-deps.yaml` key this resolver reads.
    spec fn spec_key(&self) -> Seq<char>;

    /// Whether this resolver handles a config key.
    spec fn spec_handles(&self, key: Seq<char>) -> bool;

    /// The coordinate kind this resolver produces; rewriters register against
    /// the same kind.
    spec fn spec_kind(&self) -> Seq<char>;

    /// The `.sync-branch-deps.yaml` key this resolver reads (e.g. `"npm"`).
    fn key(&self) -> (r: &'static str)
        ensures
            r@ == self.spec_key(),
    ;

    /// Whether this resolver handles a config key: its own key, or an alias.
    fn handles(&self, key: &str) -> (r: bool)
        ensures
            r == self.spec_handles(key@),
    ;

    /// The coordinate kind this resolver produces (e.g. `"npm"`, `"oci"`).
    fn kind(&self) -> (r: &'static str)
        ensures
            r@ == self.spec_kind(),
    ;
}

/// One of the resolvers sbd knows.
#[derive(Clone, Copy)]
pub enum AnyResolver {
    Npm(Npm),
    Oci(Oci),
}

impl Resolver for AnyResolver {
    open spec fn spec_key(&self) -> Seq<char> {
        match self {
            AnyResolver::Npm(r) => r.spec_key(),
            AnyResolver::Oci(r) => r.spec_key(),
        }
    }

    open spec fn spec_handles(&self, key: Seq<char>) -> bool {
        match self {
            AnyResolver::Npm(r) => r.spec_handles(key),
            AnyResolver::Oci(r) => r.spec_handles(key),
        }
    }

    open spec fn spec_kind(&self) -> Seq<char> {
        match self {
            AnyResolver::Npm(r) => r.spec_kind(),
            AnyResolver::Oci(r) => r.spec_kind(),
        }
    }

    fn key(&self) -> (r: &'static str) {
        match self {
            AnyResolver::Npm(r) => r.key(),
            AnyResolver::Oci(r) => r.key(),
        }
    }

    fn handles(&self, key: &str) -> (r: bool) {
        match self {
            AnyResolver::Npm(r) => r.handles(key),
            AnyResolver::Oci(r) => r.handles(key),
        }
    }

    fn kind(&self) -> (r: &'static str) {
        match self {
            AnyResolver::Npm(r) => r.kind(),
            AnyResolver::Oci(r) => r.kind(),
        }
    }
}

/// Every resolver sbd knows, in order: npm, then OCI.
pub open spec fn spec_all() -> Seq<AnyResolver> {
    seq![AnyResolver::Npm(Npm), AnyResolver::Oci(Oci)]
}

/// Every resolver sbd knows.
pub fn all() -> (r: Vec<AnyResolver>)
    ensures
        r@ == spec_all(),
{
    let mut v: Vec<AnyResolver> = Vec::new();
    v.push(AnyResolver::Npm(Npm));
    v.push(AnyResolver::Oci(Oci));
    assert(v@ =~= spec_all());
    v
}

/// The first of `resolvers` that handles `key`.
pub open spec fn first_handling(resolvers: Seq<AnyResolver>, key: Seq<char>) -> Option<AnyResolver>
    decreases resolvers.len(),
{
    if resolvers.len() == 0 {
        None
    } else if resolvers[0].spec_handles(key) {
        Some(resolvers[0])
    } else {
        first_handling(resolvers.drop_first(), key)
    }
}

/// The resolver that handles a given config key, if any.
pub open spec fn spec_for_key(key: Seq<char>) -> Option<AnyResolver> {
    first_handling(spec_all(), key)
}

/// The resolver that handles a given config key, if any.
pub fn for_key(key: &str) -> (r: Option<AnyResolver>)
    ensures
        r == spec_for_key(key@),
{
    let every = all();
    let mut i: usize = 0;
    assert(every@.skip(0) == every@);
    while i < every.len()
        invariant
            every@ == spec_all(),
            i <= every.len(),
            first_handling(every@, key@) == first_handling(every@.skip(i as int), key@),
        decreases every.len() - i,
    {
        assert(every@.skip(i as int).drop_first() == every@.skip(i + 1));
        assert(every@.skip(i as int)[0] == every@[i as int]);
        let r = every[i];
        if r.handles(key) {
            return Some(r);
        }
        i = i + 1;
    }
    None
}

} // verus!
