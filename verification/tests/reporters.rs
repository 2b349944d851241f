use sync_branch_deps::reporters::github::GitHubActions;
use sync_branch_deps::reporters::json::Json;
use sync_branch_deps::reporters::plain::Plain;
use sync_branch_deps::reporters::quiet::Quiet;
use sync_branch_deps::reporters::{location_text_of, select, Format, Level, Location, OutputEnv, Reporter};

fn no_env() -> OutputEnv {
    OutputEnv { github_actions: None, stderr_is_terminal: false, no_color: false }
}

#[test]
fn explicit_choice_overrides_detection() {
    assert_eq!(
        select(Some("github"), no_env()).line(Level::Warn, "x"),
        "::warning::x"
    );
    assert_eq!(
        select(Some("plain"), no_env()).line(Level::Warn, "x"),
        "sbd: warning: x"
    );
}

#[test]
fn uses_workflow_commands() {
    let g = GitHubActions;
    assert_eq!(g.line(Level::Info, "hi"), "sbd: hi");
    assert_eq!(g.line(Level::Notice, "pinned"), "::notice::pinned");
    assert_eq!(g.line(Level::Warn, "careful"), "::warning::careful");
    assert_eq!(g.line(Level::Error, "boom"), "::error::boom");
}

#[test]
fn emits_one_object_per_line() {
    assert_eq!(
        Json.line(Level::Notice, "pinned x"),
        r#"{"level":"notice","message":"pinned x"}"#
    );
}

#[test]
fn escapes_message() {
    let out = Json.line(Level::Error, r#"bad "quote""#);
    let v: serde_json::Value = serde_json::from_str(&out).unwrap();
    assert_eq!(v["level"], "error");
    assert_eq!(v["message"], r#"bad "quote""#);
}

#[test]
fn without_color_is_prefixed_and_bare() {
    let p = Plain::new(false);
    assert_eq!(p.line(Level::Info, "hi"), "sbd: hi");
    assert_eq!(p.line(Level::Warn, "careful"), "sbd: warning: careful");
    assert_eq!(p.line(Level::Error, "boom"), "sbd: error: boom");
    assert!(!p.line(Level::Notice, "ok").contains('\x1b'));
}

#[test]
fn with_color_wraps_in_ansi() {
    let p = Plain::new(true);
    assert!(p.line(Level::Notice, "ok").contains("\x1b[32m"));
}

#[test]
fn suppresses_progress_shows_problems() {
    assert_eq!(Quiet.line(Level::Info, "resolving"), "");
    assert_eq!(Quiet.line(Level::Notice, "pinned x"), "");
    assert_eq!(Quiet.line(Level::Warn, "careful"), "sbd: warning: careful");
    assert_eq!(Quiet.line(Level::Error, "boom"), "sbd: error: boom");
}

#[test]
fn colored_lines_are_exact() {
    let p = Plain::new(true);
    assert_eq!(p.line(Level::Info, "hi"), "sbd: hi");
    assert_eq!(p.line(Level::Notice, "ok"), "sbd: \x1b[32mok\x1b[0m");
    assert_eq!(p.line(Level::Warn, "w"), "sbd: \x1b[33mwarning: w\x1b[0m");
    assert_eq!(p.line(Level::Error, "e"), "sbd: \x1b[31merror: e\x1b[0m");
}

#[test]
fn quiet_writes_nothing_for_progress() {
    assert_eq!(Quiet.report_line(Level::Info, "x"), None);
    assert_eq!(Quiet.report_line(Level::Notice, "x"), None);
    assert_eq!(Quiet.report_line(Level::Warn, "x").as_deref(), Some("sbd: warning: x"));
    assert_eq!(Plain::new(false).report_line(Level::Info, "x").as_deref(), Some("sbd: x"));
}

#[test]
fn detection_picks_github_then_color_rules() {
    let gh = OutputEnv { github_actions: Some("true".into()), stderr_is_terminal: true, no_color: false };
    assert!(matches!(select(None, gh), Format::GitHub(_)));
    let not_gh = OutputEnv { github_actions: Some("false".into()), stderr_is_terminal: true, no_color: false };
    assert!(select(None, not_gh).line(Level::Notice, "ok").contains("\x1b[32m"));
    let no_color = OutputEnv { github_actions: None, stderr_is_terminal: true, no_color: true };
    assert_eq!(select(None, no_color).line(Level::Notice, "ok"), "sbd: ok");
    let pipe = OutputEnv { github_actions: None, stderr_is_terminal: false, no_color: false };
    assert_eq!(select(Some("auto"), pipe).line(Level::Notice, "ok"), "sbd: ok");
}

#[test]
fn every_named_choice_selects_its_format() {
    assert!(matches!(select(Some("json"), no_env()), Format::Json(_)));
    assert!(matches!(select(Some("quiet"), no_env()), Format::Quiet(_)));
    assert!(select(Some("color"), no_env()).line(Level::Error, "e").contains("\x1b[31m"));
}

#[test]
fn located_lines_name_the_place() {
    let loc = Location { file: "compose.yaml".into(), line: Some(3) };
    assert_eq!(location_text_of(&loc), "compose.yaml:3");
    assert_eq!(
        GitHubActions.located(Level::Error, &loc, "pin"),
        "::error file=compose.yaml,line=3::pin"
    );
    assert_eq!(
        Json.located(Level::Error, &loc, "pin"),
        r#"{"level":"error","message":"pin","file":"compose.yaml","line":3}"#
    );
    let no_line = Location { file: "package.json".into(), line: None };
    assert_eq!(location_text_of(&no_line), "package.json");
    assert_eq!(
        Json.located(Level::Error, &no_line, "pin"),
        r#"{"level":"error","message":"pin","file":"package.json","line":null}"#
    );
}

#[test]
fn json_escapes_control_characters() {
    let out = Json.line(Level::Info, "a\nb\t\"c\"\\");
    let v: serde_json::Value = serde_json::from_str(&out).unwrap();
    assert_eq!(v["message"], "a\nb\t\"c\"\\");
    assert!(!out.contains('\n'));
}

#[test]
fn color_only_adds_escape_sequences() {
    for level in [Level::Info, Level::Notice, Level::Warn, Level::Error] {
        let colored = Plain::new(true).line(level, "m");
        let plain = Plain::new(false).line(level, "m");
        let mut stripped = String::new();
        let mut chars = colored.chars().peekable();
        while let Some(c) = chars.next() {
            if c == '\x1b' {
                for d in chars.by_ref() {
                    if d == 'm' {
                        break;
                    }
                }
            } else {
                stripped.push(c);
            }
        }
        assert_eq!(stripped, plain);
        assert!(!plain.contains('\x1b'));
    }
}
