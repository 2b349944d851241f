use sync_branch_deps::rewriters::package_json::{is_npm_branch_ref, rewrite, PackageJson};
use sync_branch_deps::rewriters::{all, for_kind, AnyRewriter, Pin, Rewriter};
use sync_branch_deps::workspace::{SbdError, Workspace};

#[test]
fn rewrites_matching_dep_and_preserves_order() {
    let input = "{\n  \"name\": \"consumer\",\n  \"dependencies\": {\n    \"@acme/lib\": \"^1.2.0\",\n    \"zzz\": \"^1.0.0\"\n  }\n}\n";
    let out = rewrite(input, "@acme/lib", "feat-x").unwrap().unwrap();
    assert!(out.contains("\"@acme/lib\": \"feat-x\""));
    assert!(out.find("\"name\"").unwrap() < out.find("\"dependencies\"").unwrap());
    assert!(out.find("@acme/lib").unwrap() < out.find("zzz").unwrap());
}

#[test]
fn noop_when_already_pinned_or_absent() {
    let pinned = "{\n  \"dependencies\": { \"@acme/lib\": \"feat-x\" }\n}\n";
    assert!(rewrite(pinned, "@acme/lib", "feat-x").unwrap().is_none());
    let absent = "{\n  \"dependencies\": { \"other\": \"^1.0.0\" }\n}\n";
    assert!(rewrite(absent, "@acme/lib", "feat-x").unwrap().is_none());
}

#[test]
fn rewrite_output_is_pretty_with_trailing_newline() {
    let input = "{\"dependencies\":{\"a\":\"1\"},\"devDependencies\":{\"a\":\"2\"},\"peerDependencies\":{\"a\":\"3\"}}";
    let out = rewrite(input, "a", "t").unwrap().unwrap();
    assert_eq!(
        out,
        "{\n  \"dependencies\": {\n    \"a\": \"t\"\n  },\n  \"devDependencies\": {\n    \"a\": \"t\"\n  },\n  \"peerDependencies\": {\n    \"a\": \"t\"\n  }\n}\n"
    );
}

#[test]
fn other_dependency_tables_are_left_alone() {
    let input = "{\"optionalDependencies\":{\"a\":\"1\"}}";
    assert!(rewrite(input, "a", "t").unwrap().is_none());
    let non_object = "{\"dependencies\":[\"a\"]}";
    assert!(rewrite(non_object, "a", "t").unwrap().is_none());
}

#[test]
fn malformed_package_json_is_an_error() {
    assert!(rewrite("{", "a", "t").is_err());
}

#[test]
fn npm_branch_refs() {
    for s in ["feat-x", "^1.2.0-feat-x.7", "1.2.3-rc.1", "next"] {
        assert!(is_npm_branch_ref(s), "{s} should be a branch ref");
    }
    for s in ["^1.2.0", "~1.2", "1.2.3", "latest", "*", "x", "1.2.3-1", ">=1.0.0"] {
        assert!(!is_npm_branch_ref(s), "{s} should not be a branch ref");
    }
}

#[test]
fn package_json_rewriter_on_a_workspace() {
    let mut ws = Workspace {
        config: None,
        package_json: Some("{\"dependencies\":{\"@acme/lib\":\"^1.0.0\"}}".into()),
        compose_files: vec![],
    };
    assert_eq!(PackageJson.kind(), "npm");
    assert!(PackageJson.rewrite(&mut ws, "@acme/lib", "feat-x").unwrap());
    assert_eq!(
        ws.package_json.as_deref(),
        Some("{\n  \"dependencies\": {\n    \"@acme/lib\": \"feat-x\"\n  }\n}\n")
    );
    let pins = PackageJson.find_branch_pin(&ws, "@acme/lib").unwrap();
    assert_eq!(
        pins,
        vec![Pin { file: "package.json".into(), line: None, reference: "@acme/lib@feat-x".into() }]
    );
    let mut none = Workspace { config: None, package_json: None, compose_files: vec![] };
    assert!(!PackageJson.rewrite(&mut none, "@acme/lib", "feat-x").unwrap());
    assert!(PackageJson.find_branch_pin(&none, "@acme/lib").unwrap().is_empty());
}

#[test]
fn unreadable_package_json_is_a_manifest_error() {
    let mut ws = Workspace { config: None, package_json: Some("{".into()), compose_files: vec![] };
    match PackageJson.rewrite(&mut ws, "a", "t") {
        Err(SbdError::Manifest { file, .. }) => assert_eq!(file, "package.json"),
        _ => panic!("expected a manifest error"),
    }
    assert_eq!(ws.package_json.as_deref(), Some("{"));
}

#[test]
fn rewriters_by_kind() {
    let kinds: Vec<&str> = all().iter().map(|r| r.kind()).collect();
    assert_eq!(kinds, ["npm", "oci"]);
    assert!(matches!(for_kind("npm").as_slice(), [AnyRewriter::PackageJson(_)]));
    assert!(matches!(for_kind("oci").as_slice(), [AnyRewriter::Compose(_)]));
    assert!(for_kind("other").is_empty());
}

#[test]
fn pinning_twice_changes_nothing_the_second_time() {
    let input = "{\"dependencies\":{\"@acme/lib\":\"^1.0.0\"},\"devDependencies\":{\"@acme/lib\":\"~1.0\"}}";
    let once = rewrite(input, "@acme/lib", "feat-x").unwrap().unwrap();
    assert!(rewrite(&once, "@acme/lib", "feat-x").unwrap().is_none());
    let mut ws = Workspace { config: None, package_json: Some(once), compose_files: vec![] };
    let pins = PackageJson.find_branch_pin(&ws, "@acme/lib").unwrap();
    assert_eq!(pins.len(), 2);
    assert!(!PackageJson.rewrite(&mut ws, "@acme/lib", "feat-x").unwrap());
}
