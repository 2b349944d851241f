//! Output formatting. sbd emits progress, not data, so everything goes to
//! stderr, but *how* it is formatted adapts to where it runs: a human
//! terminal, a plain pipe, or a CI system that understands log commands.
//! Selection is automatic (environment-detected) or forced via `--output` /
//! `SBD_OUTPUT`. Rendering is pure; the caller writes the lines.

use vstd::prelude::*;

use crate::text::{concat, decimal, spec_decimal, str_eq};

pub mod github;
pub mod json;
pub mod plain;
pub mod quiet;

use github::GitHubActions;
use json::Json;
use plain::Plain;
use quiet::Quiet;

verus! {

broadcast use vstd::string::group_string_axioms;

/// Severity of a reported line; formats render each differently (e.g. a CI
/// reporter turns `Warn`/`Error` into annotations).
#[derive(Clone, Copy, PartialEq, Eq, Debug, Structural)]
pub enum Level {
    Info,
    Notice,
    Warn,
    Error,
}

/// Where a reported finding is: a file and, when known, a 1-based line.
#[derive(Debug, PartialEq, Eq)]
pub struct Location {
    pub file: String,
    pub line: Option<usize>,
}

/// The text that names a location: `file`, or `file:line`.
pub open spec fn location_text(file: Seq<char>, line: Option<usize>) -> Seq<char> {
    match line {
        Some(n) => file + seq![':'] + spec_decimal(n as nat),
        None => file,
    }
}

/// The text that names a location.
pub fn location_text_of(loc: &Location) -> (r: String)
    ensures
        r@ == location_text(loc.file@, loc.line),
{
    proof {
        reveal_strlit(":");
        assert(":"@ =~= seq![':']);
    }
    match loc.line {
        Some(n) => concat(&concat(loc.file.as_str(), ":"), decimal(n).as_str()),
        None => loc.file.clone(),
    }
}

pub trait Reporter {
    /// The line rendered for `level`/`msg`.
    spec fn spec_line(&self, level: Level, msg: Seq<char>) -> Seq<char>;

    /// The line rendered for `level`/`msg` about the place `file`/`line`.
    spec fn spec_located(&self, level: Level, file: Seq<char>, line: Option<usize>, msg: Seq<char>) -> Seq<char>;

    /// The line written for `level`/`msg`, if any.
    spec fn spec_report_line(&self, level: Level, msg: Seq<char>) -> Option<Seq<char>>;

    /// Render a line for `level`/`msg`.
    fn line(&self, level: Level, msg: &str) -> (r: String)
        ensures
            r@ == self.spec_line(level, msg@),
    ;

    /// Render a line for `level`/`msg` about the place `loc`.
    fn located(&self, level: Level, loc: &Location, msg: &str) -> (r: String)
        ensures
            r@ == self.spec_located(level, loc.file@, loc.line, msg@),
    ;

    /// The line to write for `level`/`msg`, or `None` when nothing is written.
    fn report_line(&self, level: Level, msg: &str) -> (r: Option<String>)
        ensures
            match self.spec_report_line(level, msg@) {
                Some(l) => r matches Some(s) && s@ == l,
                None => r is None,
            },
    ;
}

/// What the environment says about where output goes.
pub struct OutputEnv {
    /// The value of `GITHUB_ACTIONS`, if set.
    pub github_actions: Option<String>,
    /// Whether stderr is a terminal.
    pub stderr_is_terminal: bool,
    /// Whether `NO_COLOR` is set.
    pub no_color: bool,
}

/// A chosen output format.
pub enum Format {
    Plain(Plain),
    GitHub(GitHubActions),
    Json(Json),
    Quiet(Quiet),
}

/// The format an explicit choice names, if it names one.
pub open spec fn named_format(choice: Seq<char>) -> Option<Format> {
    if choice == "plain"@ {
        Some(Format::Plain(Plain::spec_new(false)))
    } else if choice == "color"@ {
        Some(Format::Plain(Plain::spec_new(true)))
    } else if choice == "github"@ {
        Some(Format::GitHub(GitHubActions))
    } else if choice == "json"@ {
        Some(Format::Json(Json))
    } else if choice == "quiet"@ {
        Some(Format::Quiet(Quiet))
    } else {
        None
    }
}

/// The format chosen by detection: GitHub Actions commands when
/// `GITHUB_ACTIONS=true`; otherwise plain text, colored only on a terminal and
/// only when `NO_COLOR` is unset.
pub open spec fn detected_format(env: OutputEnv) -> Format {
    if env.github_actions matches Some(v) && v@ == "true"@ {
        Format::GitHub(GitHubActions)
    } else {
        Format::Plain(Plain::spec_new(env.stderr_is_terminal && !env.no_color))
    }
}

/// Choose a format from an explicit choice (`--output`/`SBD_OUTPUT`), or for
/// `auto`/unknown/none, by detecting the environment.
pub open spec fn spec_select(choice: Option<Seq<char>>, env: OutputEnv) -> Format {
    match choice {
        Some(c) => match named_format(c) {
            Some(f) => f,
            None => detected_format(env),
        },
        None => detected_format(env),
    }
}

/// Choose a reporter from an explicit choice (`--output`/`SBD_OUTPUT`), or for
/// `auto`/unknown/none, from what the environment says.
pub fn select(choice: Option<&str>, env: OutputEnv) -> (r: Format)
    ensures
        r == spec_select(
            match choice {
                Some(c) => Some(c@),
                None => None,
            },
            env,
        ),
{
    match choice {
        Some(c) => {
            if str_eq(c, "plain") {
                return Format::Plain(Plain::new(false));
            } else if str_eq(c, "color") {
                return Format::Plain(Plain::new(true));
            } else if str_eq(c, "github") {
                return Format::GitHub(GitHubActions);
            } else if str_eq(c, "json") {
                return Format::Json(Json);
            } else if str_eq(c, "quiet") {
                return Format::Quiet(Quiet);
            }
        },
        None => {},
    }
    auto(env)
}

fn auto(env: OutputEnv) -> (r: Format)
    ensures
        r == detected_format(env),
{
    let github = match &env.github_actions {
        Some(v) => str_eq(v.as_str(), "true"),
        None => false,
    };
    if github {
        Format::GitHub(GitHubActions)
    } else {
        Format::Plain(Plain::new(env.stderr_is_terminal && !env.no_color))
    }
}

impl Reporter for Format {
    open spec fn spec_line(&self, level: Level, msg: Seq<char>) -> Seq<char> {
        match self {
            Format::Plain(r) => r.spec_line(level, msg),
            Format::GitHub(r) => r.spec_line(level, msg),
            Format::Json(r) => r.spec_line(level, msg),
            Format::Quiet(r) => r.spec_line(level, msg),
        }
    }

    open spec fn spec_located(&self, level: Level, file: Seq<char>, line: Option<usize>, msg: Seq<char>) -> Seq<char> {
        match self {
            Format::Plain(r) => r.spec_located(level, file, line, msg),
            Format::GitHub(r) => r.spec_located(level, file, line, msg),
            Format::Json(r) => r.spec_located(level, file, line, msg),
            Format::Quiet(r) => r.spec_located(level, file, line, msg),
        }
    }

    open spec fn spec_report_line(&self, level: Level, msg: Seq<char>) -> Option<Seq<char>> {
        match self {
            Format::Plain(r) => r.spec_report_line(level, msg),
            Format::GitHub(r) => r.spec_report_line(level, msg),
            Format::Json(r) => r.spec_report_line(level, msg),
            Format::Quiet(r) => r.spec_report_line(level, msg),
        }
    }

    fn line(&self, level: Level, msg: &str) -> (r: String) {
        match self {
            Format::Plain(r) => r.line(level, msg),
            Format::GitHub(r) => r.line(level, msg),
            Format::Json(r) => r.line(level, msg),
            Format::Quiet(r) => r.line(level, msg),
        }
    }

    fn located(&self, level: Level, loc: &Location, msg: &str) -> (r: String) {
        match self {
            Format::Plain(r) => r.located(level, loc, msg),
            Format::GitHub(r) => r.located(level, loc, msg),
            Format::Json(r) => r.located(level, loc, msg),
            Format::Quiet(r) => r.located(level, loc, msg),
        }
    }

    fn report_line(&self, level: Level, msg: &str) -> (r: Option<String>) {
        match self {
            Format::Plain(r) => r.report_line(level, msg),
            Format::GitHub(r) => r.report_line(level, msg),
            Format::Json(r) => r.report_line(level, msg),
            Format::Quiet(r) => r.report_line(level, msg),
        }
    }
}

} // verus!
