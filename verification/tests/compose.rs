use sync_branch_deps::rewriters::compose::{find_pins, is_branch_tag, is_compose_file, rewrite, text_lines, Compose};
use sync_branch_deps::rewriters::{Pin, Rewriter};
use sync_branch_deps::workspace::{SourceFile, Workspace};

#[test]
fn rewrites_matching_prefix_only() {
    let input = "services:\n  a:\n    image: ghcr.io/acme/service:1.1.4\n  b:\n    image: ghcr.io/acme/other:1.0.5\n";
    let out = rewrite(input, "ghcr.io/acme/service", "feat-x").unwrap();
    assert!(out.contains("ghcr.io/acme/service:feat-x"));
    assert!(out.contains("ghcr.io/acme/other:1.0.5"));
}

#[test]
fn noop_when_prefix_absent() {
    let input = "  image: ghcr.io/acme/other:1.0.5\n";
    assert!(rewrite(input, "ghcr.io/acme/service", "feat-x").is_none());
}

#[test]
fn rewrites_quoted_image_and_preserves_quotes() {
    for input in [
        "    image: \"ghcr.io/acme/service:1.1.4\"\n",
        "    image: 'ghcr.io/acme/service:1.1.4'\n",
    ] {
        let out = rewrite(input, "ghcr.io/acme/service", "feat-x").unwrap();
        let q = input.chars().find(|c| *c == '"' || *c == '\'').unwrap();
        assert!(
            out.contains(&format!("image: {q}ghcr.io/acme/service:feat-x{q}")),
            "quote {q} should survive: {out}"
        );
    }
}

#[test]
fn ignores_substring_keys_and_comments() {
    let input = "services:\n  a:\n    image: ghcr.io/acme/service:1.1.4\n    base_image: ghcr.io/acme/service:1.0.0\n    # image: ghcr.io/acme/service:old\n";
    let out = rewrite(input, "ghcr.io/acme/service", "feat-x").unwrap();
    assert!(out.contains("    image: ghcr.io/acme/service:feat-x"));
    assert!(out.contains("base_image: ghcr.io/acme/service:1.0.0"));
    assert!(out.contains("# image: ghcr.io/acme/service:old"));
}

#[test]
fn compose_glob_matches_expected_names() {
    for name in [
        "compose.yaml",
        "compose.yml",
        "compose.defaults.yaml",
        "compose.ci.yml",
    ] {
        assert!(is_compose_file(name), "{name} should match");
    }
    for name in [
        "docker-compose.yaml",
        "compose.json",
        "notes.yaml",
        "compose",
    ] {
        assert!(!is_compose_file(name), "{name} should not match");
    }
}

#[test]
fn branch_tags_vs_released() {
    for t in ["1", "1.2", "1.2.3", "v1.2.3"] {
        assert!(!is_branch_tag(t), "{t} should be released");
    }
    for t in ["feat-x", "1.2.3-feat", "1.2.3-20260703T0000Z", "latest"] {
        assert!(is_branch_tag(t), "{t} should be a branch tag");
    }
}

#[test]
fn rewrite_is_exact_and_keeps_everything_else() {
    let input = "services:\n  a:\n    image: ghcr.io/acme/service:1.1.4 # pinned\n  b:\n    - image: ghcr.io/acme/service:2\n";
    assert_eq!(
        rewrite(input, "ghcr.io/acme/service", "feat-x").unwrap(),
        "services:\n  a:\n    image: ghcr.io/acme/service:feat-x # pinned\n  b:\n    - image: ghcr.io/acme/service:feat-x\n"
    );
}

#[test]
fn rewrite_again_with_the_same_tag_is_a_noop() {
    let input = "    image: ghcr.io/acme/service:1.1.4\n";
    let once = rewrite(input, "ghcr.io/acme/service", "feat-x").unwrap();
    assert!(rewrite(&once, "ghcr.io/acme/service", "feat-x").is_none());
}

#[test]
fn longer_repository_with_same_prefix_is_not_rewritten() {
    let input = "    image: ghcr.io/acme/service-extra:1.0\n    image: ghcr.io/acme/service:1.0\n";
    assert_eq!(
        rewrite(input, "ghcr.io/acme/service", "t").unwrap(),
        "    image: ghcr.io/acme/service-extra:1.0\n    image: ghcr.io/acme/service:t\n"
    );
}

#[test]
fn an_untagged_image_is_left_alone() {
    assert!(rewrite("    image: ghcr.io/acme/service\n", "ghcr.io/acme/service", "t").is_none());
}

#[test]
fn crlf_line_endings_survive_a_rewrite() {
    let input = "a:\r\n  image: x/y:1\r\n";
    assert_eq!(rewrite(input, "x/y", "t").unwrap(), "a:\r\n  image: x/y:t\r\n");
}

#[test]
fn find_pins_reports_branch_tags_with_lines() {
    let content = "services:\n  a:\n    image: ghcr.io/acme/svc:feat-x\n  b:\n    image: \"ghcr.io/acme/svc:1.2.3\"\n    base_image: ghcr.io/acme/svc:feat-y\n  c:\n    image: 'ghcr.io/acme/svc:1.2.3-rc'\n";
    let pins = find_pins("compose.yaml", content, "ghcr.io/acme/svc");
    assert_eq!(
        pins,
        vec![
            Pin { file: "compose.yaml".into(), line: Some(3), reference: "ghcr.io/acme/svc:feat-x".into() },
            Pin { file: "compose.yaml".into(), line: Some(8), reference: "ghcr.io/acme/svc:1.2.3-rc".into() },
        ]
    );
}

#[test]
fn text_lines_split_like_str_lines() {
    let lines = text_lines("a\r\nb\n\nc");
    let as_strings: Vec<String> = lines.iter().map(|l| l.iter().collect()).collect();
    assert_eq!(as_strings, "a\r\nb\n\nc".lines().collect::<Vec<_>>());
    assert!(text_lines("").is_empty());
}

#[test]
fn compose_rewriter_rewrites_every_file_and_finds_pins() {
    let mut ws = Workspace {
        config: None,
        package_json: None,
        compose_files: vec![
            SourceFile { name: "compose.ci.yaml".into(), content: "x:\n  image: r.io/a:1\n".into() },
            SourceFile { name: "compose.yaml".into(), content: "x:\n  image: r.io/b:1\n".into() },
        ],
    };
    assert_eq!(Compose.kind(), "oci");
    assert!(Compose.rewrite(&mut ws, "r.io/a", "feat").unwrap());
    assert_eq!(ws.compose_files[0].content, "x:\n  image: r.io/a:feat\n");
    assert_eq!(ws.compose_files[1].content, "x:\n  image: r.io/b:1\n");
    assert!(!Compose.rewrite(&mut ws, "r.io/a", "feat").unwrap());
    let pins = Compose.find_branch_pin(&ws, "r.io/a").unwrap();
    assert_eq!(
        pins,
        vec![Pin { file: "compose.ci.yaml".into(), line: Some(2), reference: "r.io/a:feat".into() }]
    );
}

#[test]
fn a_second_pass_over_every_file_changes_nothing() {
    let mut ws = Workspace {
        config: None,
        package_json: None,
        compose_files: vec![
            SourceFile { name: "compose.a.yaml".into(), content: "  image: \"r.io/a:1\"\n  image: r.io/a:2\n".into() },
            SourceFile { name: "compose.yaml".into(), content: "- image: r.io/a:3\n".into() },
        ],
    };
    assert!(Compose.rewrite(&mut ws, "r.io/a", "feat-y").unwrap());
    assert!(!Compose.rewrite(&mut ws, "r.io/a", "feat-y").unwrap());
    assert_eq!(ws.compose_files[0].content, "  image: \"r.io/a:feat-y\"\n  image: r.io/a:feat-y\n");
    assert_eq!(ws.compose_files[1].content, "- image: r.io/a:feat-y\n");
}

#[test]
fn a_rewrite_keeps_the_line_count_and_is_a_noop_when_already_tagged() {
    let input = "a:\n  image: r.io/x:1\n\n  image: \"r.io/x:2\"\r\nz\n";
    let out = rewrite(input, "r.io/x", "feat").unwrap();
    assert_eq!(out.lines().count(), input.lines().count());
    let tagged = "a:\n  image: r.io/x:feat\n  - image: 'r.io/x:feat'\n";
    assert!(rewrite(tagged, "r.io/x", "feat").is_none());
}
