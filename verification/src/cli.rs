//! Minimal argument parsing for `sbd <sync|verify> [flags]`. The surface is
//! small (two subcommands plus a couple of flags), so it is hand-rolled to keep
//! the binary dependency-light. `parse` is pure.

use vstd::prelude::*;

use crate::text::{has_prefix, str_eq, starts_with, to_chars, string_of_range, concat};

verus! {

broadcast use vstd::string::group_string_axioms;

pub const USAGE: &'static str = "\
sbd — resolve and pin cross-repo feature-branch dependencies

Usage:
  sbd sync [--dry-run] [--output <fmt>]    Resolve branch artifacts and pin them
  sbd verify [--output <fmt>]              Fail if any branch pin remains (the PR gate)

Options:
  --dry-run          (sync) report what would be pinned without writing
  --output <fmt>     plain | color | github | json | quiet  (default: auto-detect)
  -h, --help         show this help";

#[derive(Debug, PartialEq, Eq)]
pub enum Command {
    Sync { dry_run: bool },
    Verify,
}

#[derive(Debug, PartialEq, Eq)]
pub struct Invocation {
    pub command: Command,
    pub output: Option<String>,
}

/// The outcome of parsing argv (excluding the program name).
#[derive(Debug, PartialEq, Eq)]
pub enum Parsed {
    /// A valid invocation to run.
    Run(Invocation),
    /// `-h`/`--help`: print usage to stdout, exit 0.
    Help,
    /// Invalid usage: print the message and usage to stderr, exit non-zero.
    Usage(String),
}

/// The mathematical value of a parse outcome.
pub enum ParsedView {
    Run { command: Command, output: Option<Seq<char>> },
    Help,
    Usage(Seq<char>),
}

impl View for Parsed {
    type V = ParsedView;

    open spec fn view(&self) -> ParsedView {
        match self {
            Parsed::Run(inv) => ParsedView::Run {
                command: inv.command,
                output: opt_view(inv.output),
            },
            Parsed::Help => ParsedView::Help,
            Parsed::Usage(m) => ParsedView::Usage(m@),
        }
    }
}

/// An optional string, by its characters.
pub open spec fn opt_view(o: Option<String>) -> Option<Seq<char>> {
    match o {
        Some(s) => Some(s@),
        None => None,
    }
}

pub open spec fn is_help_flag(a: Seq<char>) -> bool {
    a == "-h"@ || a == "--help"@
}

/// `str::trim_start_matches` with a non-empty literal pattern: every leading
/// repetition of `p` removed.
pub open spec fn trim_start_repeated(s: Seq<char>, p: Seq<char>) -> Seq<char>
    decreases s.len(),
{
    if p.len() > 0 && has_prefix(s, p) {
        trim_start_repeated(s.skip(p.len() as int), p)
    } else {
        s
    }
}

/// The flags after the subcommand, read left to right.
pub open spec fn spec_parse_flags(
    rest: Seq<Seq<char>>,
    is_sync: bool,
    dry_run: bool,
    output: Option<Seq<char>>,
) -> ParsedView
    decreases rest.len(),
{
    if rest.len() == 0 {
        ParsedView::Run {
            command: if is_sync { Command::Sync { dry_run } } else { Command::Verify },
            output,
        }
    } else {
        let arg = rest[0];
        if is_help_flag(arg) {
            ParsedView::Help
        } else if arg == "--dry-run"@ && is_sync {
            spec_parse_flags(rest.drop_first(), is_sync, true, output)
        } else if arg == "--output"@ {
            if rest.len() >= 2 {
                spec_parse_flags(rest.skip(2), is_sync, dry_run, Some(rest[1]))
            } else {
                ParsedView::Usage("--output requires a value"@)
            }
        } else if has_prefix(arg, "--output="@) {
            spec_parse_flags(
                rest.drop_first(),
                is_sync,
                dry_run,
                Some(trim_start_repeated(arg, "--output="@)),
            )
        } else {
            ParsedView::Usage("unexpected argument: "@ + arg)
        }
    }
}

/// What `sbd <args>` means.
pub open spec fn spec_parse(args: Seq<Seq<char>>) -> ParsedView {
    if args.len() == 0 {
        ParsedView::Usage("a subcommand is required"@)
    } else {
        let first = args[0];
        if is_help_flag(first) {
            ParsedView::Help
        } else if first == "sync"@ {
            spec_parse_flags(args.drop_first(), true, false, None)
        } else if first == "verify"@ {
            spec_parse_flags(args.drop_first(), false, false, None)
        } else {
            ParsedView::Usage("unknown subcommand: "@ + first)
        }
    }
}

pub open spec fn views(args: Seq<String>) -> Seq<Seq<char>> {
    args.map_values(|s: String| s@)
}

fn trim_output_prefix(arg: &str) -> (r: String)
    ensures
        r@ == trim_start_repeated(arg@, "--output="@),
{
    let a = to_chars(arg);
    let p = to_chars("--output=");
    proof {
        reveal_strlit("--output=");
    }
    let mut i: usize = 0;
    assert(a@.skip(0) == a@);
    while crate::text::matches_at(&a, i, &p)
        invariant
            p@ == "--output="@,
            p@.len() == 9,
            i <= a@.len(),
            trim_start_repeated(a@, p@) == trim_start_repeated(a@.skip(i as int), p@),
        decreases a.len() - i,
    {
        proof {
            assert(a@.skip(i as int).take(p@.len() as int) == a@.subrange(i as int, i + p@.len()));
            assert(a@.skip(i as int).skip(p@.len() as int) == a@.skip(i + p@.len()));
        }
        i = i + p.len();
    }
    proof {
        if has_prefix(a@.skip(i as int), p@) {
            assert(a@.skip(i as int).take(p@.len() as int) == a@.subrange(i as int, i + p@.len()));
        }
    }
    string_of_range(&a, i, a.len())
}

pub fn parse(args: &[String]) -> (r: Parsed)
    ensures
        r@ == spec_parse(views(args@)),
{
    proof {
        reveal_strlit("-h");
        reveal_strlit("--help");
        reveal_strlit("sync");
        reveal_strlit("verify");
    }
    let ghost all = views(args@);
    if args.len() == 0 {
        return Parsed::Usage(String::from_str("a subcommand is required"));
    }
    let first = args[0].as_str();
    assert(first@ == all[0]);
    let is_sync = if str_eq(first, "-h") || str_eq(first, "--help") {
        return Parsed::Help;
    } else if str_eq(first, "sync") {
        true
    } else if str_eq(first, "verify") {
        false
    } else {
        return Parsed::Usage(concat("unknown subcommand: ", first));
    };
    let mut dry_run = false;
    let mut output: Option<String> = None;
    let mut i: usize = 1;
    assert(all.skip(1) == all.drop_first());
    while i < args.len()
        invariant
            all == views(args@),
            1 <= i <= args.len(),
            spec_parse(all) == spec_parse_flags(
                all.skip(i as int),
                is_sync,
                dry_run,
                opt_view(output),
            ),
        decreases args.len() - i,
    {
        let arg = args[i].as_str();
        let ghost rest = all.skip(i as int);
        assert(rest[0] == arg@);
        if str_eq(arg, "-h") || str_eq(arg, "--help") {
            return Parsed::Help;
        } else if str_eq(arg, "--dry-run") && is_sync {
            assert(rest.drop_first() == all.skip(i + 1));
            dry_run = true;
            i = i + 1;
        } else if str_eq(arg, "--output") {
            if i + 1 < args.len() {
                assert(rest.skip(2) == all.skip(i + 2));
                assert(rest[1] == args@[i + 1]@);
                output = Some(args[i + 1].clone());
                i = i + 2;
            } else {
                return Parsed::Usage(String::from_str("--output requires a value"));
            }
        } else if starts_with(&to_chars(arg), &to_chars("--output=")) {
            assert(rest.drop_first() == all.skip(i + 1));
            output = Some(trim_output_prefix(arg));
            i = i + 1;
        } else {
            return Parsed::Usage(concat("unexpected argument: ", arg));
        }
    }
    let command = if is_sync {
        Command::Sync { dry_run }
    } else {
        Command::Verify
    };
    Parsed::Run(Invocation { command, output })
}

/// The output format asked for: `--output` when given, else `$SBD_OUTPUT`
/// when set. Neither gives `None`, which means auto-detection.
pub fn output_choice(flag: Option<String>, env_value: Option<String>) -> (r: Option<String>)
    ensures
        r == (if flag is Some {
            flag
        } else {
            env_value
        }),
{
    match flag {
        Some(f) => Some(f),
        None => env_value,
    }
}

} // verus!
