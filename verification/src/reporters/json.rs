//! Newline-delimited JSON: one object per event (`{"level":...,"message":...}`).
//! A generic machine-readable format any tooling can consume. Deliberately not
//! a findings/test format (SARIF, JUnit): sbd reports progress, not code
//! findings.

use vstd::prelude::*;

use crate::json::{flat_members_text, flat_object, flat_object_text, flat_value_text, lemma_members_view, members_view, render_json, JsonSpec, JsonValue};
use crate::json_text::{json_plain_char, json_quoted, lemma_escaped_plain};
use crate::reporters::{Level, Location, Reporter};
use crate::text::spec_decimal;

verus! {

broadcast use vstd::string::group_string_axioms;

pub struct Json;

pub open spec fn spec_level_str(level: Level) -> Seq<char> {
    match level {
        Level::Info => "info"@,
        Level::Notice => "notice"@,
        Level::Warn => "warn"@,
        Level::Error => "error"@,
    }
}

fn level_str(level: Level) -> (r: &'static str)
    ensures
        r@ == spec_level_str(level),
{
    match level {
        Level::Info => "info",
        Level::Notice => "notice",
        Level::Warn => "warn",
        Level::Error => "error",
    }
}

/// The `"level"` and `"message"` members of an event object.
pub open spec fn event_members(level: Level, msg: Seq<char>) -> Seq<char> {
    "\"level\":"@ + json_quoted(spec_level_str(level)) + ",\"message\":"@ + json_quoted(msg)
}

impl Reporter for Json {
    open spec fn spec_line(&self, level: Level, msg: Seq<char>) -> Seq<char> {
        "{"@ + event_members(level, msg) + "}"@
    }

    open spec fn spec_located(&self, level: Level, file: Seq<char>, line: Option<usize>, msg: Seq<char>) -> Seq<char> {
        "{"@ + event_members(level, msg) + ",\"file\":"@ + json_quoted(file) + ",\"line\":"@ + match line {
            Some(n) => spec_decimal(n as nat),
            None => "null"@,
        } + "}"@
    }

    open spec fn spec_report_line(&self, level: Level, msg: Seq<char>) -> Option<Seq<char>> {
        Some(self.spec_line(level, msg))
    }

    fn line(&self, level: Level, msg: &str) -> (r: String) {
        let mut members: Vec<(String, JsonValue)> = Vec::new();
        members.push((String::from_str("level"), JsonValue::Str(String::from_str(level_str(level)))));
        members.push((String::from_str("message"), JsonValue::Str(String::from_str(msg))));
        let doc = JsonValue::Object(members);
        proof {
            lemma_members_view(members@);
            lemma_event_text(level, msg@, seq![]);
            assert(members_view(members@) =~= event_members_spec(level, msg@, seq![]));
        }
        render_json(&doc)
    }

    fn located(&self, level: Level, loc: &Location, msg: &str) -> (r: String) {
        let mut members: Vec<(String, JsonValue)> = Vec::new();
        members.push((String::from_str("level"), JsonValue::Str(String::from_str(level_str(level)))));
        members.push((String::from_str("message"), JsonValue::Str(String::from_str(msg))));
        members.push((String::from_str("file"), JsonValue::Str(loc.file.clone())));
        let line_value = match loc.line {
            Some(n) => JsonValue::Unsigned(n),
            None => JsonValue::Null,
        };
        members.push((String::from_str("line"), line_value));
        let doc = JsonValue::Object(members);
        let ghost extra = place_members(loc.file@, loc.line);
        proof {
            lemma_members_view(members@);
            lemma_event_text(level, msg@, extra);
            assert(members_view(members@) =~= event_members_spec(level, msg@, extra));
        }
        render_json(&doc)
    }

    fn report_line(&self, level: Level, msg: &str) -> (r: Option<String>) {
        Some(self.line(level, msg))
    }
}

/// The members of an event object: `level`, `message`, then `extra`.
pub open spec fn event_members_spec(level: Level, msg: Seq<char>, extra: Seq<(Seq<char>, JsonSpec)>) -> Seq<(Seq<char>, JsonSpec)> {
    seq![("level"@, JsonSpec::Str(spec_level_str(level))), ("message"@, JsonSpec::Str(msg))] + extra
}

/// The `file` and `line` members of a located event.
pub open spec fn place_members(file: Seq<char>, line: Option<usize>) -> Seq<(Seq<char>, JsonSpec)> {
    seq![
        ("file"@, JsonSpec::Str(file)),
        ("line"@, match line {
            Some(n) => JsonSpec::Unsigned(n),
            None => JsonSpec::Null,
        }),
    ]
}

proof fn lemma_plain_literal(s: Seq<char>)
    requires
        forall|i: int| 0 <= i < s.len() ==> 'a' <= #[trigger] s[i] && s[i] <= 'z',
    ensures
        json_quoted(s) == seq!['"'] + s + seq!['"'],
{
    assert forall|i: int| 0 <= i < s.len() implies json_plain_char(#[trigger] s[i]) by {
        assert('a' <= s[i] && s[i] <= 'z');
    }
    lemma_escaped_plain(s);
}

/// An event object with no extra members, or with the place members, is flat
/// and is written as the reporter's line says.
proof fn lemma_event_text(level: Level, msg: Seq<char>, extra: Seq<(Seq<char>, JsonSpec)>)
    requires
        extra == Seq::<(Seq<char>, JsonSpec)>::empty() || exists|f: Seq<char>, l: Option<usize>| extra
            == place_members(f, l),
    ensures
        flat_object(JsonSpec::Object(event_members_spec(level, msg, extra))),
        extra == Seq::<(Seq<char>, JsonSpec)>::empty() ==> flat_object_text(
            JsonSpec::Object(event_members_spec(level, msg, extra)),
        ) == Json.spec_line(level, msg),
        forall|f: Seq<char>, l: Option<usize>|
            extra == place_members(f, l) ==> flat_object_text(JsonSpec::Object(event_members_spec(level, msg, extra)))
                == #[trigger] Json.spec_located(level, f, l, msg),
{
    reveal_strlit("level");
    reveal_strlit("message");
    reveal_strlit("file");
    reveal_strlit("line");
    reveal_strlit("info");
    reveal_strlit("notice");
    reveal_strlit("warn");
    reveal_strlit("error");
    reveal_strlit("null");
    reveal_strlit("{");
    reveal_strlit("}");
    reveal_strlit("\"level\":");
    reveal_strlit(",\"message\":");
    reveal_strlit(",\"file\":");
    reveal_strlit(",\"line\":");
    lemma_plain_literal("level"@);
    lemma_plain_literal("message"@);
    lemma_plain_literal("file"@);
    lemma_plain_literal("line"@);
    let ms = event_members_spec(level, msg, extra);
    let m0 = json_quoted("level"@) + seq![':'] + json_quoted(spec_level_str(level));
    let m1 = json_quoted("message"@) + seq![':'] + json_quoted(msg);
    assert(ms.drop_last().drop_last().len() == ms.len() - 2);
    let a = ms.take(1);
    assert(a.len() == 1 && a.last() == ms[0]);
    assert(ms[0] == ("level"@, JsonSpec::Str(spec_level_str(level))));
    assert(ms[1] == ("message"@, JsonSpec::Str(msg)));
    assert(flat_members_text(a) == m0);
    let b = ms.take(2);
    assert(b.drop_last() =~= a);
    assert(b.last() == ms[1]);
    assert(flat_members_text(b) == m0 + seq![','] + m1);
    if extra.len() == 0 {
        assert(b =~= ms);
        assert(flat_members_text(ms) == m0 + seq![','] + m1);
        assert(flat_object_text(JsonSpec::Object(ms)) =~= Json.spec_line(level, msg));
    } else {
        let (f, l) = choose|f: Seq<char>, l: Option<usize>| extra == place_members(f, l);
        let v = match l {
            Some(n) => spec_decimal(n as nat),
            None => "null"@,
        };
        let m2 = json_quoted("file"@) + seq![':'] + json_quoted(f);
        let m3 = json_quoted("line"@) + seq![':'] + v;
        assert(flat_value_text(ms[3].1) == Some(v));
        assert(ms[2] == ("file"@, JsonSpec::Str(f)));
        assert(ms[3].0 == "line"@);
        let c = ms.take(3);
        assert(c.drop_last() =~= b);
        assert(c.last() == ms[2]);
        assert(flat_members_text(c) == m0 + seq![','] + m1 + seq![','] + m2);
        assert(ms.drop_last() =~= c);
        assert(flat_members_text(ms) == m0 + seq![','] + m1 + seq![','] + m2 + seq![','] + m3);
        assert forall|f2: Seq<char>, l2: Option<usize>| extra == place_members(f2, l2) implies flat_object_text(
            JsonSpec::Object(ms),
        ) == #[trigger] Json.spec_located(level, f2, l2, msg) by {
            assert(place_members(f2, l2)[0] == place_members(f, l)[0]);
            assert(place_members(f2, l2)[1] == place_members(f, l)[1]);
            assert(f2 == f && l2 == l);
            assert(flat_object_text(JsonSpec::Object(ms)) =~= Json.spec_located(level, f, l, msg));
        }
    }
    assert("level"@ != "message"@ && "level"@ != "file"@ && "level"@ != "line"@ && "message"@ != "file"@
        && "message"@ != "line"@ && "file"@ != "line"@) by {
        assert("level"@.len() != "message"@.len() && "level"@.len() != "file"@.len() && "level"@.len() != "line"@.len());
        assert("message"@.len() != "file"@.len() && "message"@.len() != "line"@.len());
        assert("file"@[0] != "line"@[0]);
    }
}

/// No escaped text holds a line break: a newline is written `\n`.
proof fn lemma_escaped_one_line(s: Seq<char>)
    ensures
        !crate::json_text::json_escaped(s).contains('\n'),
    decreases s.len(),
{
    if s.len() > 0 {
        lemma_escaped_one_line(s.drop_last());
        let b = crate::json_text::json_escape_char(s.last());
        assert(!b.contains('\n'));
        lemma_concat_one_line(crate::json_text::json_escaped(s.drop_last()), b);
    }
}

/// Newline-delimited JSON: every event line is a single line, whatever the
/// message holds.
pub proof fn lemma_json_line_is_one_line(level: Level, msg: Seq<char>)
    ensures
        !Json.spec_line(level, msg).contains('\n'),
{
    lemma_escaped_one_line(spec_level_str(level));
    lemma_escaped_one_line(msg);
    reveal_strlit("{");
    reveal_strlit("}");
    reveal_strlit("\"level\":");
    reveal_strlit(",\"message\":");
    let parts = seq![
        "{"@,
        "\"level\":"@,
        json_quoted(spec_level_str(level)),
        ",\"message\":"@,
        json_quoted(msg),
        "}"@,
    ];
    let line = Json.spec_line(level, msg);
    assert(line == parts[0] + parts[1] + parts[2] + parts[3] + parts[4] + parts[5]);
    assert forall|k: int| 0 <= k < 6 implies !(#[trigger] parts[k]).contains('\n') by {
        if k == 2 || k == 4 {
            let e = if k == 2 { spec_level_str(level) } else { msg };
            let q = json_quoted(e);
            let x = crate::json_text::json_escaped(e);
            assert forall|i: int| 0 <= i < q.len() implies q[i] != '\n' by {
                if i > 0 && i < q.len() - 1 {
                    assert(q[i] == x[i - 1]);
                }
            }
        }
    }
    lemma_concat_one_line(parts[0], parts[1]);
    lemma_concat_one_line(parts[0] + parts[1], parts[2]);
    lemma_concat_one_line(parts[0] + parts[1] + parts[2], parts[3]);
    lemma_concat_one_line(parts[0] + parts[1] + parts[2] + parts[3], parts[4]);
    lemma_concat_one_line(parts[0] + parts[1] + parts[2] + parts[3] + parts[4], parts[5]);
}

proof fn lemma_concat_one_line(a: Seq<char>, b: Seq<char>)
    requires
        !a.contains('\n'),
        !b.contains('\n'),
    ensures
        !(a + b).contains('\n'),
{
    assert forall|i: int| 0 <= i < a.len() + b.len() implies (a + b)[i] != '\n' by {
        if i < a.len() {
            assert((a + b)[i] == a[i]);
        } else {
            assert((a + b)[i] == b[i - a.len()]);
        }
    }
}

} // verus!
