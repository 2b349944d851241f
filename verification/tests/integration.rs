use sync_branch_deps::reporters::{Level, Location};
use sync_branch_deps::resolvers::AnyResolver;
use sync_branch_deps::workspace::{SbdError, SourceFile, Workspace};
use sync_branch_deps::{sync, verify, Event, Lookup, SyncRun};

const CONFIG: &str = "npm:\n  - \"@acme/lib\"\noci:\n  - ghcr.io/acme/svc\n";

fn ws(config: Option<&str>, package_json: Option<&str>, compose: &[(&str, &str)]) -> Workspace {
    Workspace {
        config: config.map(str::to_string),
        package_json: package_json.map(str::to_string),
        compose_files: compose
            .iter()
            .map(|(n, c)| SourceFile { name: n.to_string(), content: c.to_string() })
            .collect(),
    }
}

/// Drive a run that must need no registry.
fn run_offline(mut run: SyncRun) -> (Workspace, Vec<Event>, Result<(), SbdError>) {
    assert!(run.next_lookup().is_none(), "an offline run asked the registry");
    assert!(run.is_finished());
    run.finish()
}

/// Drive a run, answering each lookup with `answer`; returns the lookups asked.
fn run_with(
    mut run: SyncRun,
    answer: impl Fn(&AnyResolver, &str, &str) -> Lookup,
) -> (Vec<String>, (Workspace, Vec<Event>, Result<(), SbdError>)) {
    let mut asked = Vec::new();
    while let Some(q) = run.next_lookup() {
        asked.push(q.target.clone());
        let a = answer(&q.resolver, &q.target, &q.slug);
        run.feed(a);
    }
    (asked, run.finish())
}

fn messages(events: &[Event]) -> Vec<String> {
    events.iter().map(|e| e.message.clone()).collect()
}

#[test]
fn sync_no_op_on_default_branch() {
    let (out, events, result) = run_offline(sync(ws(Some(CONFIG), None, &[]), "main", "main", false));
    assert!(result.is_ok());
    assert_eq!(out.config.as_deref(), Some(CONFIG));
    assert_eq!(
        messages(&events),
        ["on main — no-op (branch deps resolve off feature branches only)"]
    );
}

#[test]
fn sync_no_op_without_config() {
    let (out, events, result) = run_offline(sync(ws(None, None, &[]), "feat/x", "main", false));
    assert!(result.is_ok());
    assert!(out.config.is_none());
    assert_eq!(
        messages(&events),
        ["branch=feat/x sanitized=feat-x", ".sync-branch-deps.yaml absent — nothing to do"]
    );
}

#[test]
fn sync_unknown_ecosystem_key_touches_nothing() {
    let pkg = "{\n  \"dependencies\": {}\n}\n";
    let start = ws(Some("totally-unknown:\n  - whatever\n"), Some(pkg), &[]);
    let (out, events, result) = run_offline(sync(start, "feat/x", "main", false));
    assert!(result.is_ok());
    assert_eq!(out.package_json.as_deref(), Some(pkg));
    assert_eq!(events.last().unwrap().level, Level::Warn);
    assert_eq!(events.last().unwrap().message, "totally-unknown: no resolver for this key — skipping");
}

#[test]
fn verify_passes_when_clean() {
    let w = ws(
        Some(CONFIG),
        Some("{\n  \"dependencies\": { \"@acme/lib\": \"^1.2.0\" }\n}\n"),
        &[("compose.yaml", "services:\n  svc:\n    image: ghcr.io/acme/svc:1.2.3\n")],
    );
    let report = verify(&w);
    assert!(report.result.unwrap());
    assert_eq!(messages(&report.events), ["no branch pins found"]);
}

#[test]
fn verify_fails_on_branch_pins() {
    let w = ws(
        Some(CONFIG),
        Some("{\n  \"dependencies\": { \"@acme/lib\": \"feat-x\" }\n}\n"),
        &[("compose.yaml", "services:\n  svc:\n    image: ghcr.io/acme/svc:feat-x\n")],
    );
    let report = verify(&w);
    assert!(!report.result.unwrap());
    let located: Vec<(String, Option<usize>)> = report
        .events
        .iter()
        .filter_map(|e| e.location.as_ref().map(|l: &Location| (l.file.clone(), l.line)))
        .collect();
    assert_eq!(
        located,
        [("package.json".to_string(), None), ("compose.yaml".to_string(), Some(3))]
    );
    assert!(report.events.iter().all(|e| e.level == Level::Error));
}

#[test]
fn verify_fails_on_quoted_branch_pin() {
    let w = ws(
        Some(CONFIG),
        None,
        &[("compose.yaml", "services:\n  svc:\n    image: \"ghcr.io/acme/svc:feat-x\"\n")],
    );
    assert!(!verify(&w).result.unwrap());
}

#[test]
fn verify_ignores_non_image_keys_and_comments() {
    let w = ws(
        Some("oci:\n  - ghcr.io/acme/svc\n"),
        None,
        &[(
            "compose.yaml",
            "services:\n  svc:\n    image: ghcr.io/acme/svc:1.2.3\n    base_image: ghcr.io/acme/svc:feat-x\n    # image: ghcr.io/acme/svc:feat-x\n",
        )],
    );
    assert!(verify(&w).result.unwrap());
}

#[test]
fn verify_without_config_is_clean() {
    let report = verify(&ws(None, Some("{\"dependencies\":{\"a\":\"feat\"}}"), &[]));
    assert!(report.result.unwrap());
    assert_eq!(messages(&report.events), [".sync-branch-deps.yaml absent — nothing to do"]);
}

#[test]
fn verify_reports_config_and_manifest_errors() {
    let bad_config = verify(&ws(Some("npm: [\n"), None, &[]));
    match bad_config.result {
        Err(e @ SbdError::Config(_)) => assert!(e.message().starts_with("parsing .sync-branch-deps.yaml: ")),
        _ => panic!("expected a config error"),
    }
    let bad_manifest = verify(&ws(Some(CONFIG), Some("{"), &[]));
    match bad_manifest.result {
        Err(e @ SbdError::Manifest { .. }) => assert!(e.message().starts_with("parsing package.json: ")),
        _ => panic!("expected a manifest error"),
    }
}

#[test]
fn verify_warns_about_ignored_and_unknown_keys() {
    let report = verify(&ws(Some("version: 2\nzzz:\n  - a\n"), None, &[]));
    assert!(report.result.unwrap());
    assert_eq!(
        messages(&report.events),
        [
            "version: not a list of targets — ignoring",
            "zzz: no resolver for this key — skipping",
            "no branch pins found"
        ]
    );
}

#[test]
fn sync_pins_what_the_registry_has() {
    let start = ws(
        Some(CONFIG),
        Some("{\n  \"dependencies\": {\n    \"@acme/lib\": \"^1.2.0\"\n  }\n}\n"),
        &[("compose.yaml", "services:\n  svc:\n    image: ghcr.io/acme/svc:1.2.3\n")],
    );
    let (asked, (out, events, result)) = run_with(sync(start, "feat/x", "main", false), |_, target, slug| {
        assert_eq!(slug, "feat-x");
        if target == "@acme/lib" {
            Lookup::Found("1.3.0-feat-x.1".into())
        } else {
            Lookup::Found(slug.into())
        }
    });
    assert!(result.is_ok());
    assert_eq!(asked, ["@acme/lib", "ghcr.io/acme/svc"]);
    assert_eq!(
        out.package_json.as_deref(),
        Some("{\n  \"dependencies\": {\n    \"@acme/lib\": \"feat-x\"\n  }\n}\n")
    );
    assert_eq!(out.compose_files[0].content, "services:\n  svc:\n    image: ghcr.io/acme/svc:feat-x\n");
    assert_eq!(
        messages(&events)[1..],
        [
            "@acme/lib: pinned to 'feat-x' (resolved 1.3.0-feat-x.1)".to_string(),
            "ghcr.io/acme/svc: pinned to 'feat-x' (resolved feat-x)".to_string(),
        ]
    );
    // verify catches what sync wrote.
    assert!(!verify(&out).result.unwrap());
}

#[test]
fn sync_dry_run_writes_nothing() {
    let pkg = "{\"dependencies\":{\"@acme/lib\":\"^1.2.0\"}}";
    let start = ws(Some(CONFIG), Some(pkg), &[]);
    let (_, (out, events, result)) =
        run_with(sync(start, "feat/x", "main", true), |_, _, _| Lookup::Found("v".into()));
    assert!(result.is_ok());
    assert_eq!(out.package_json.as_deref(), Some(pkg));
    assert_eq!(events[1].message, "@acme/lib: would pin to 'feat-x' (resolved v)");
    assert_eq!(events[1].level, Level::Notice);
}

#[test]
fn sync_skips_misses_and_stops_on_failures() {
    let start = ws(Some(CONFIG), None, &[]);
    let (asked, (_, events, result)) = run_with(sync(start, "feat/x", "main", false), |_, _, _| Lookup::Missing);
    assert!(result.is_ok());
    assert_eq!(asked.len(), 2);
    assert_eq!(events[1].message, "@acme/lib: no 'feat-x' — skipping");

    let start = ws(Some(CONFIG), None, &[]);
    let (asked, (_, _, result)) =
        run_with(sync(start, "feat/x", "main", false), |_, _, _| Lookup::Failed("HTTP 500".into()));
    assert_eq!(asked.len(), 1);
    match result {
        Err(e) => assert_eq!(e.message(), "resolving @acme/lib: HTTP 500"),
        Ok(()) => panic!("expected a lookup failure"),
    }
}

#[test]
fn sync_reports_already_pinned_targets() {
    let pkg = "{\"dependencies\":{\"@acme/lib\":\"feat-x\"}}";
    let start = ws(Some("npm:\n  - \"@acme/lib\"\n"), Some(pkg), &[]);
    let (_, (out, events, result)) =
        run_with(sync(start, "feat/x", "main", false), |_, _, _| Lookup::Found("1".into()));
    assert!(result.is_ok());
    assert_eq!(out.package_json.as_deref(), Some(pkg));
    assert_eq!(events[1].message, "@acme/lib: already at 'feat-x'");
}

#[test]
fn sync_on_empty_branch_shows_unknown() {
    let (_, events, _) = run_offline(sync(ws(Some(CONFIG), None, &[]), "", "main", false));
    assert_eq!(events[0].message, "on unknown — no-op (branch deps resolve off feature branches only)");
}

#[test]
fn sync_with_bad_config_fails() {
    let (_, _, result) = run_offline(sync(ws(Some("npm: [\n"), None, &[]), "feat/x", "main", false));
    assert!(matches!(result, Err(SbdError::Config(_))));
}

#[test]
fn feeding_a_finished_run_changes_nothing() {
    let mut run = sync(ws(None, None, &[]), "feat/x", "main", false);
    assert!(run.next_lookup().is_none());
    run.feed(Lookup::Found("x".into()));
    let (_, events, result) = run.finish();
    assert!(result.is_ok());
    assert_eq!(events.len(), 2);
}
