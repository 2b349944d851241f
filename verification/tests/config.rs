use sync_branch_deps::config::{Config, CONFIG_FILE};

#[test]
fn parses_ecosystem_keyed_lists() {
    let cfg = Config::parse(
        "npm:\n  - \"@org/lib\"\noci:\n  - ghcr.io/org/svc\n  - quay.io/org/other\n",
    )
    .unwrap();
    assert_eq!(cfg.targets("npm").unwrap(), &vec!["@org/lib".to_string()]);
    assert_eq!(
        cfg.targets("oci").unwrap(),
        &vec!["ghcr.io/org/svc".to_string(), "quay.io/org/other".to_string()]
    );
}

#[test]
fn empty_config_is_empty() {
    assert!(Config::parse("{}").unwrap().entries.is_empty());
}

#[test]
fn blank_and_null_documents_are_empty() {
    // A document with no mapping is a no-op, never a parse error.
    for doc in ["", "   \n", "# only a comment\n", "null\n", "~\n"] {
        let cfg = Config::parse(doc).unwrap_or_else(|e| panic!("{doc:?}: {}", e.message()));
        assert!(
            cfg.entries.is_empty() && cfg.ignored.is_empty(),
            "doc: {doc:?}"
        );
    }
}

#[test]
fn ignores_non_list_values_for_forward_compat() {
    let cfg = Config::parse("npm:\n  - \"@org/lib\"\nversion: 2\noci: not-a-list\n").unwrap();
    assert_eq!(cfg.targets("npm").unwrap(), &vec!["@org/lib".to_string()]);
    assert!(cfg.targets("version").is_none());
    assert!(cfg.targets("oci").is_none());
    assert_eq!(cfg.ignored, ["oci", "version"]);
}

#[test]
fn keys_come_in_key_order() {
    let cfg = Config::parse("oci:\n  - a\nnpm:\n  - b\n").unwrap();
    let keys: Vec<&str> = cfg.entries.iter().map(|(k, _)| k.as_str()).collect();
    assert_eq!(keys, ["npm", "oci"]);
}

#[test]
fn a_mapping_of_lists_parses_every_key_once() {
    let cfg = Config::parse("npm: []\n").unwrap();
    assert_eq!(cfg.targets("npm").unwrap().len(), 0);
    assert!(cfg.ignored.is_empty());
}

#[test]
fn malformed_yaml_is_a_config_error() {
    let err = Config::parse("npm: [unclosed\n").unwrap_err();
    assert!(err.message().starts_with("parsing .sync-branch-deps.yaml: "));
}

#[test]
fn a_top_level_list_is_a_config_error() {
    assert!(Config::parse("- npm\n- oci\n").is_err());
}

#[test]
fn config_file_name() {
    assert_eq!(CONFIG_FILE, ".sync-branch-deps.yaml");
}

#[test]
fn from_entries_partitions_by_listedness() {
    let cfg = Config::from_entries(vec![
        ("a".to_string(), Some(vec!["x".to_string()])),
        ("b".to_string(), None),
        ("c".to_string(), Some(vec![])),
    ]);
    assert_eq!(cfg.entries.len(), 2);
    assert_eq!(cfg.entries[0].0, "a");
    assert_eq!(cfg.entries[1].0, "c");
    assert_eq!(cfg.ignored, ["b"]);
}
