//! Human-readable output, optionally colorized. The default outside CI.

use vstd::prelude::*;

use crate::reporters::{location_text, location_text_of, Level, Location, Reporter};
use crate::text::concat;

verus! {

broadcast use vstd::string::group_string_axioms;

pub struct Plain {
    color: bool,
}

/// The text prefixed to a message of a level.
pub open spec fn level_prefix(level: Level) -> Seq<char> {
    match level {
        Level::Info => Seq::empty(),
        Level::Notice => Seq::empty(),
        Level::Warn => "warning: "@,
        Level::Error => "error: "@,
    }
}

/// The ANSI color code of a level, if it is painted.
pub open spec fn level_color(level: Level) -> Option<Seq<char>> {
    match level {
        Level::Info => None,
        Level::Notice => Some("32"@),
        Level::Warn => Some("33"@),
        Level::Error => Some("31"@),
    }
}

/// `s` wrapped in the ANSI escape for `code`, when coloring.
pub open spec fn painted(color: bool, code: Seq<char>, s: Seq<char>) -> Seq<char> {
    if color {
        "\x1b["@ + code + "m"@ + s + "\x1b[0m"@
    } else {
        s
    }
}

/// A plain line: `sbd: ` then the level's prefix and the message, painted in
/// the level's color when coloring.
pub open spec fn plain_line(color: bool, level: Level, msg: Seq<char>) -> Seq<char> {
    match level_color(level) {
        Some(code) => "sbd: "@ + painted(color, code, level_prefix(level) + msg),
        None => "sbd: "@ + msg,
    }
}

impl Plain {
    /// The plain reporter that paints exactly when `color` is set.
    pub closed spec fn spec_new(color: bool) -> Plain {
        Plain { color }
    }

    /// Whether this reporter paints with ANSI colors.
    pub closed spec fn is_colored(&self) -> bool {
        self.color
    }

    /// A plain reporter is determined by whether it paints.
    pub proof fn lemma_spec_new(color: bool)
        ensures
            Plain::spec_new(color).is_colored() == color,
    {
    }

    pub fn new(color: bool) -> (r: Self)
        ensures
            r == Plain::spec_new(color),
            r.is_colored() == color,
    {
        Self { color }
    }

    fn paint(&self, code: &str, s: &str) -> (r: String)
        ensures
            r@ == painted(self.color, code@, s@),
    {
        if self.color {
            let mut out = concat("\x1b[", code);
            out.append("m");
            out.append(s);
            out.append("\x1b[0m");
            out
        } else {
            String::from_str(s)
        }
    }
}

impl Reporter for Plain {
    open spec fn spec_line(&self, level: Level, msg: Seq<char>) -> Seq<char> {
        plain_line(self.is_colored(), level, msg)
    }

    open spec fn spec_located(&self, level: Level, file: Seq<char>, line: Option<usize>, msg: Seq<char>) -> Seq<char> {
        plain_line(self.is_colored(), level, location_text(file, line) + ": "@ + msg)
    }

    open spec fn spec_report_line(&self, level: Level, msg: Seq<char>) -> Option<Seq<char>> {
        Some(self.spec_line(level, msg))
    }

    fn line(&self, level: Level, msg: &str) -> (r: String) {
        let body = match level {
            Level::Info => return concat("sbd: ", msg),
            Level::Notice => self.paint("32", msg),
            Level::Warn => self.paint("33", concat("warning: ", msg).as_str()),
            Level::Error => self.paint("31", concat("error: ", msg).as_str()),
        };
        proof {
            assert(Seq::<char>::empty() + msg@ =~= msg@);
        }
        concat("sbd: ", body.as_str())
    }

    fn located(&self, level: Level, loc: &Location, msg: &str) -> (r: String) {
        let place = location_text_of(loc);
        let text = concat(&concat(place.as_str(), ": "), msg);
        self.line(level, text.as_str())
    }

    fn report_line(&self, level: Level, msg: &str) -> (r: Option<String>) {
        Some(self.line(level, msg))
    }
}

pub open spec fn is_ascii_digit(c: char) -> bool {
    '0' <= c && c <= '9'
}

/// The end of the run of ASCII digits that starts at `i`.
pub open spec fn digits_end(s: Seq<char>, i: int) -> int
    decreases s.len() - i,
{
    if 0 <= i < s.len() && is_ascii_digit(s[i]) {
        digits_end(s, i + 1)
    } else {
        i
    }
}

/// The length of the ANSI SGR sequence (`ESC [`, digits, `m`) that `s`
/// starts with, or 0 when it starts with none.
pub open spec fn sgr_len(s: Seq<char>) -> int {
    if s.len() >= 2 && s[0] == '\x1b' && s[1] == '[' && digits_end(s, 2) < s.len() && s[digits_end(s, 2)] == 'm' {
        digits_end(s, 2) + 1
    } else {
        0
    }
}

/// `s` with every ANSI SGR sequence removed.
pub open spec fn strip_sgr(s: Seq<char>) -> Seq<char>
    decreases s.len(),
{
    if s.len() == 0 {
        s
    } else if sgr_len(s) > 0 {
        proof {
            lemma_digits_end(s, 2);
        }
        strip_sgr(s.skip(sgr_len(s)))
    } else {
        seq![s[0]] + strip_sgr(s.drop_first())
    }
}

pub proof fn lemma_digits_end(s: Seq<char>, i: int)
    requires
        0 <= i <= s.len(),
    ensures
        i <= digits_end(s, i) <= s.len(),
    decreases s.len() - i,
{
    if i < s.len() && is_ascii_digit(s[i]) {
        lemma_digits_end(s, i + 1);
    }
}

/// Text without an escape character comes through stripping unchanged.
proof fn lemma_strip_plain(a: Seq<char>, b: Seq<char>)
    requires
        !a.contains('\x1b'),
    ensures
        strip_sgr(a + b) == a + strip_sgr(b),
    decreases a.len(),
{
    if a.len() > 0 {
        assert((a + b)[0] == a[0]);
        assert((a + b).drop_first() =~= a.drop_first() + b);
        assert(!a.drop_first().contains('\x1b')) by {
            assert forall|k: int| 0 <= k < a.drop_first().len() implies a.drop_first()[k] != '\x1b' by {
                assert(a.drop_first()[k] == a[k + 1]);
            }
        }
        lemma_strip_plain(a.drop_first(), b);
        assert(seq![a[0]] + (a.drop_first() + strip_sgr(b)) =~= a + strip_sgr(b));
    } else {
        assert(a + b =~= b);
        assert(a + strip_sgr(b) =~= strip_sgr(b));
    }
}

proof fn lemma_digits_run(s: Seq<char>, i: int, g: int)
    requires
        0 <= i <= g < s.len(),
        forall|k: int| i <= k < g ==> is_ascii_digit(#[trigger] s[k]),
        !is_ascii_digit(s[g]),
    ensures
        digits_end(s, i) == g,
    decreases g - i,
{
    if i < g {
        lemma_digits_run(s, i + 1, g);
    }
}

/// An SGR sequence with the code `code` is removed whole.
proof fn lemma_strip_code(code: Seq<char>, b: Seq<char>)
    requires
        forall|k: int| 0 <= k < code.len() ==> is_ascii_digit(#[trigger] code[k]),
    ensures
        strip_sgr(seq!['\x1b', '['] + code + seq!['m'] + b) == strip_sgr(b),
{
    let s = seq!['\x1b', '['] + code + seq!['m'] + b;
    let g: int = code.len() + 2int;
    assert forall|k: int| 2 <= k < g implies is_ascii_digit(#[trigger] s[k]) by {
        assert(s[k] == code[k - 2]);
    }
    assert(s[g] == 'm');
    lemma_digits_run(s, 2, g);
    assert(sgr_len(s) == g + 1);
    assert(s.skip(g + 1) =~= b);
}

/// Coloring only adds ANSI SGR sequences: a colored line with them removed
/// is the uncolored line, which holds no escape character, whenever the
/// message holds none.
pub proof fn lemma_color_only_adds_sgr(level: Level, msg: Seq<char>)
    requires
        !msg.contains('\x1b'),
    ensures
        strip_sgr(plain_line(true, level, msg)) == plain_line(false, level, msg),
        !plain_line(false, level, msg).contains('\x1b'),
{
    reveal_strlit("sbd: ");
    reveal_strlit("warning: ");
    reveal_strlit("error: ");
    reveal_strlit("\x1b[");
    reveal_strlit("m");
    reveal_strlit("\x1b[0m");
    reveal_strlit("32");
    reveal_strlit("33");
    reveal_strlit("31");
    let head = "sbd: "@;
    let body = level_prefix(level) + msg;
    assert(!head.contains('\x1b'));
    assert(!body.contains('\x1b')) by {
        let p = level_prefix(level);
        assert forall|k: int| 0 <= k < body.len() implies body[k] != '\x1b' by {
            if k < p.len() {
                assert(body[k] == p[k]);
            } else {
                assert(body[k] == msg[k - p.len()]);
            }
        }
    }
    match level_color(level) {
        Some(code) => {
            assert(forall|k: int| 0 <= k < code.len() ==> is_ascii_digit(#[trigger] code[k]));
            let reset = seq!['\x1b', '['] + seq!['0'] + seq!['m'] + Seq::<char>::empty();
            assert("\x1b[0m"@ =~= reset);
            lemma_strip_code(seq!['0'], Seq::<char>::empty());
            assert(strip_sgr(Seq::<char>::empty()) == Seq::<char>::empty());
            lemma_strip_plain(body, "\x1b[0m"@);
            assert(body + "\x1b[0m"@ =~= body + reset);
            let colored = seq!['\x1b', '['] + code + seq!['m'] + (body + "\x1b[0m"@);
            lemma_strip_code(code, body + "\x1b[0m"@);
            assert(painted(true, code, body) =~= colored);
            lemma_strip_plain(head, colored);
            assert(body + Seq::<char>::empty() =~= body);
            assert(plain_line(false, level, msg) == head + body);
            assert(!(head + body).contains('\x1b')) by {
                assert forall|k: int| 0 <= k < (head + body).len() implies (head + body)[k] != '\x1b' by {
                    if k < head.len() {
                        assert((head + body)[k] == head[k]);
                    } else {
                        assert((head + body)[k] == body[k - head.len()]);
                    }
                }
            }
        },
        None => {
            assert(plain_line(true, level, msg) == head + msg);
            lemma_strip_plain(head + msg, Seq::<char>::empty());
            assert(head + msg + Seq::<char>::empty() =~= head + msg);
            assert(!(head + msg).contains('\x1b')) by {
                assert forall|k: int| 0 <= k < (head + msg).len() implies (head + msg)[k] != '\x1b' by {
                    if k < head.len() {
                        assert((head + msg)[k] == head[k]);
                    } else {
                        assert((head + msg)[k] == msg[k - head.len()]);
                    }
                }
            }
        },
    }
}

} // verus!
