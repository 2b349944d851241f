//! The manifests of a repo as plain values: the caller reads them from disk
//! and writes back what changed; the library decides.

use vstd::prelude::*;

use crate::config::ConfigError;
use crate::text::concat;

verus! {

broadcast use vstd::string::group_string_axioms;

/// A file of the repo root, by name, with its text.
pub struct SourceFile {
    pub name: String,
    pub content: String,
}

/// What sbd reads in a repo root.
pub struct Workspace {
    /// The text of `.sync-branch-deps.yaml`, if the file exists.
    pub config: Option<String>,
    /// The text of `package.json`, if the file exists.
    pub package_json: Option<String>,
    /// Every `compose*.{yaml,yml}` file of the root, in name order.
    pub compose_files: Vec<SourceFile>,
}

/// The mathematical value of a [`Workspace`].
pub struct WorkspaceView {
    pub config: Option<Seq<char>>,
    pub package_json: Option<Seq<char>>,
    pub compose_files: Seq<(Seq<char>, Seq<char>)>,
}

pub open spec fn opt_text(o: Option<String>) -> Option<Seq<char>> {
    match o {
        Some(s) => Some(s@),
        None => None,
    }
}

pub open spec fn files_view(files: Seq<SourceFile>) -> Seq<(Seq<char>, Seq<char>)> {
    files.map_values(|f: SourceFile| (f.name@, f.content@))
}

impl View for Workspace {
    type V = WorkspaceView;

    open spec fn view(&self) -> WorkspaceView {
        WorkspaceView {
            config: opt_text(self.config),
            package_json: opt_text(self.package_json),
            compose_files: files_view(self.compose_files@),
        }
    }
}

/// Why a run failed.
#[derive(Debug)]
pub enum SbdError {
    /// `.sync-branch-deps.yaml` is not a YAML mapping.
    Config(ConfigError),
    /// A manifest could not be read as its format; carries the file and what
    /// the reader said.
    Manifest { file: String, detail: String },
    /// A registry lookup failed (network, auth), as distinct from a miss.
    Lookup { target: String, cause: String },
}

/// The mathematical value of an [`SbdError`].
pub enum SbdErrorView {
    Config(Seq<char>),
    Manifest { file: Seq<char>, detail: Seq<char> },
    Lookup { target: Seq<char>, cause: Seq<char> },
}

impl View for SbdError {
    type V = SbdErrorView;

    open spec fn view(&self) -> SbdErrorView {
        match self {
            SbdError::Config(e) => SbdErrorView::Config(e.detail@),
            SbdError::Manifest { file, detail } => SbdErrorView::Manifest { file: file@, detail: detail@ },
            SbdError::Lookup { target, cause } => SbdErrorView::Lookup { target: target@, cause: cause@ },
        }
    }
}

impl SbdError {
    pub open spec fn spec_message(&self) -> Seq<char> {
        match self {
            SbdError::Config(e) => e.spec_message(),
            SbdError::Manifest { file, detail } => "parsing "@ + file@ + ": "@ + detail@,
            SbdError::Lookup { target, cause } => "resolving "@ + target@ + ": "@ + cause@,
        }
    }

    /// The error as one line: what was being done, then why it failed.
    pub fn message(&self) -> (r: String)
        ensures
            r@ == self.spec_message(),
    {
        match self {
            SbdError::Config(e) => e.message(),
            SbdError::Manifest { file, detail } => {
                let mut out = concat("parsing ", file.as_str());
                out.append(": ");
                out.append(detail.as_str());
                out
            },
            SbdError::Lookup { target, cause } => {
                let mut out = concat("resolving ", target.as_str());
                out.append(": ");
                out.append(cause.as_str());
                out
            },
        }
    }
}

} // verus!
