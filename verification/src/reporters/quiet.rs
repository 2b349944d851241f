//! Quiet mode: suppress routine progress (`info`/`notice`) and surface only
//! `warn`/`error`. Useful in scripts and cron where only something that needs
//! attention matters. (Exit status still signals failure regardless.)

use vstd::prelude::*;

use crate::reporters::{location_text, location_text_of, Level, Location, Reporter};
use crate::text::concat;

verus! {

broadcast use vstd::string::group_string_axioms;

pub struct Quiet;

impl Reporter for Quiet {
    open spec fn spec_line(&self, level: Level, msg: Seq<char>) -> Seq<char> {
        match level {
            Level::Warn => "sbd: warning: "@ + msg,
            Level::Error => "sbd: error: "@ + msg,
            Level::Info | Level::Notice => Seq::empty(),
        }
    }

    open spec fn spec_located(&self, level: Level, file: Seq<char>, line: Option<usize>, msg: Seq<char>) -> Seq<char> {
        self.spec_line(level, location_text(file, line) + ": "@ + msg)
    }

    /// An empty line is the "nothing to print" sentinel.
    open spec fn spec_report_line(&self, level: Level, msg: Seq<char>) -> Option<Seq<char>> {
        if self.spec_line(level, msg).len() == 0 {
            None
        } else {
            Some(self.spec_line(level, msg))
        }
    }

    fn line(&self, level: Level, msg: &str) -> (r: String) {
        match level {
            Level::Warn => concat("sbd: warning: ", msg),
            Level::Error => concat("sbd: error: ", msg),
            Level::Info | Level::Notice => String::new(),
        }
    }

    fn located(&self, level: Level, loc: &Location, msg: &str) -> (r: String) {
        let place = location_text_of(loc);
        let text = concat(&concat(place.as_str(), ": "), msg);
        self.line(level, text.as_str())
    }

    fn report_line(&self, level: Level, msg: &str) -> (r: Option<String>) {
        let line = self.line(level, msg);
        if line.as_str().is_empty() {
            None
        } else {
            Some(line)
        }
    }
}

/// Quiet mode writes nothing for routine progress and everything for
/// problems.
pub proof fn lemma_quiet_shows_only_problems(level: Level, msg: Seq<char>)
    ensures
        (Quiet.spec_report_line(level, msg) is None) <==> (level == Level::Info || level == Level::Notice),
{
    reveal_strlit("sbd: warning: ");
    reveal_strlit("sbd: error: ");
}

} // verus!
