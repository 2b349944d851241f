//! GitHub Actions workflow commands: `Warn`/`Error` become annotations that
//! surface in the checks UI; `Info`/`Notice` stay readable in the raw log.
//! Auto-selected when `GITHUB_ACTIONS=true`.

use vstd::prelude::*;

use crate::reporters::{location_text, location_text_of, Level, Location, Reporter};
use crate::text::{concat, decimal, spec_decimal};

verus! {

broadcast use vstd::string::group_string_axioms;

pub struct GitHubActions;

/// The workflow command for a level, if it has one.
pub open spec fn command_of(level: Level) -> Option<Seq<char>> {
    match level {
        Level::Info => None,
        Level::Notice => Some("notice"@),
        Level::Warn => Some("warning"@),
        Level::Error => Some("error"@),
    }
}

/// The properties of an annotation: `file=<file>` and `,line=<n>` when known.
pub open spec fn annotation_properties(file: Seq<char>, line: Option<usize>) -> Seq<char> {
    "file="@ + file + match line {
        Some(n) => ",line="@ + spec_decimal(n as nat),
        None => Seq::empty(),
    }
}

impl Reporter for GitHubActions {
    open spec fn spec_line(&self, level: Level, msg: Seq<char>) -> Seq<char> {
        match command_of(level) {
            Some(cmd) => "::"@ + cmd + "::"@ + msg,
            None => "sbd: "@ + msg,
        }
    }

    open spec fn spec_located(&self, level: Level, file: Seq<char>, line: Option<usize>, msg: Seq<char>) -> Seq<char> {
        match command_of(level) {
            Some(cmd) => "::"@ + cmd + " "@ + annotation_properties(file, line) + "::"@ + msg,
            None => "sbd: "@ + location_text(file, line) + ": "@ + msg,
        }
    }

    open spec fn spec_report_line(&self, level: Level, msg: Seq<char>) -> Option<Seq<char>> {
        Some(self.spec_line(level, msg))
    }

    fn line(&self, level: Level, msg: &str) -> (r: String) {
        proof {
            reveal_strlit("::notice::");
            reveal_strlit("::warning::");
            reveal_strlit("::error::");
            reveal_strlit("::");
            reveal_strlit("notice");
            reveal_strlit("warning");
            reveal_strlit("error");
            assert("::notice::"@ =~= "::"@ + "notice"@ + "::"@);
            assert("::warning::"@ =~= "::"@ + "warning"@ + "::"@);
            assert("::error::"@ =~= "::"@ + "error"@ + "::"@);
        }
        match level {
            Level::Info => concat("sbd: ", msg),
            Level::Notice => concat("::notice::", msg),
            Level::Warn => concat("::warning::", msg),
            Level::Error => concat("::error::", msg),
        }
    }

    fn located(&self, level: Level, loc: &Location, msg: &str) -> (r: String) {
        let head = match level {
            Level::Info => {
                let place = location_text_of(loc);
                let out = concat(&concat(&concat("sbd: ", place.as_str()), ": "), msg);
                return out;
            },
            Level::Notice => "::notice file=",
            Level::Warn => "::warning file=",
            Level::Error => "::error file=",
        };
        let mut out = concat(head, loc.file.as_str());
        match loc.line {
            Some(n) => {
                out.append(",line=");
                out.append(decimal(n).as_str());
            },
            None => {},
        }
        out.append("::");
        out.append(msg);
        proof {
            reveal_strlit("::notice file=");
            reveal_strlit("::warning file=");
            reveal_strlit("::error file=");
            reveal_strlit("::");
            reveal_strlit("notice");
            reveal_strlit("warning");
            reveal_strlit("error");
            reveal_strlit(" ");
            reveal_strlit("file=");
            let cmd = command_of(level)->0;
            assert("::notice file="@ =~= "::"@ + "notice"@ + " "@ + "file="@);
            assert("::warning file="@ =~= "::"@ + "warning"@ + " "@ + "file="@);
            assert("::error file="@ =~= "::"@ + "error"@ + " "@ + "file="@);
            assert(out@ =~= self.spec_located(level, loc.file@, loc.line, msg@));
        }
        out
    }

    fn report_line(&self, level: Level, msg: &str) -> (r: Option<String>) {
        Some(self.line(level, msg))
    }
}

} // verus!
