use sync_branch_deps::resolvers::npm::{
    dist_tag, expand_env, packument_outcome, packument_url, registry_host, scope_of, HttpReply, Npm, Npmrc,
};
use sync_branch_deps::resolvers::Resolver;

fn no_env() -> Vec<(String, String)> {
    Vec::new()
}

#[test]
fn scope_extraction() {
    assert_eq!(scope_of("@acme/lib").as_deref(), Some("@acme"));
    assert_eq!(scope_of("plain-pkg"), None);
}

#[test]
fn npmrc_resolves_scoped_registry_and_token() {
    let rc = Npmrc::parse(
        "@acme:registry=https://npm.example.com\n\
         //npm.example.com/:_authToken=secret-123\n\
         registry=https://registry.npmjs.org\n",
        &no_env(),
    );
    assert_eq!(rc.registry_for("@acme/lib"), "https://npm.example.com");
    assert_eq!(rc.registry_for("plain-pkg"), "https://registry.npmjs.org");
    assert_eq!(
        rc.token_for("https://npm.example.com"),
        Some("secret-123".to_string())
    );
    assert_eq!(rc.token_for("https://registry.npmjs.org"), None);
}

#[test]
fn npmrc_skips_comments_and_blanks() {
    let rc = Npmrc::parse("# a comment\n\n; another\nregistry=https://r.example.com\n", &no_env());
    assert_eq!(rc.registry_for("x"), "https://r.example.com");
}

#[test]
fn env_expansion() {
    let env = vec![("SBD_TEST_TOKEN".to_string(), "xyz".to_string())];
    assert_eq!(expand_env("Bearer ${SBD_TEST_TOKEN}", &env), "Bearer xyz");
    assert_eq!(expand_env("no-vars-here", &env), "no-vars-here");
}

#[test]
fn dist_tag_lookup() {
    let body =
        r#"{"name":"@acme/lib","dist-tags":{"latest":"1.2.0","feat-x":"1.2.0-feat-x.7"}}"#;
    assert_eq!(dist_tag(body, "feat-x"), Some("1.2.0-feat-x.7".to_string()));
    assert_eq!(dist_tag(body, "nope"), None);
}

#[test]
fn unset_variables_expand_to_nothing_and_unclosed_stay() {
    assert_eq!(expand_env("a${MISSING}b", &no_env()), "ab");
    assert_eq!(expand_env("a${OPEN", &no_env()), "a${OPEN");
    let env = vec![("X".to_string(), "1".to_string()), ("Y".to_string(), "2".to_string())];
    assert_eq!(expand_env("${X}-${Y}-${X}", &env), "1-2-1");
}

#[test]
fn npmrc_expands_variables_in_values() {
    let env = vec![("NPM_TOKEN".to_string(), "tok".to_string())];
    let rc = Npmrc::parse("//r.example.com/:_authToken=${NPM_TOKEN}\n", &env);
    assert_eq!(rc.token_for("https://r.example.com/"), Some("tok".to_string()));
}

#[test]
fn later_npmrc_lines_override_earlier_ones() {
    let mut rc = Npmrc::parse("registry=https://first.example.com\n", &no_env());
    rc.merge_text("registry = https://second.example.com \n", &no_env());
    assert_eq!(rc.registry_for("x"), "https://second.example.com");
}

#[test]
fn lines_without_equals_are_ignored() {
    let rc = Npmrc::parse("just a line\nregistry=https://r\n", &no_env());
    assert_eq!(rc.registry_for("x"), "https://r");
    assert_eq!(Npmrc::new().registry_for("x"), "https://registry.npmjs.org");
}

#[test]
fn scoped_package_without_scoped_registry_uses_default() {
    let rc = Npmrc::parse("registry=https://r.example.com\n", &no_env());
    assert_eq!(rc.registry_for("@other/lib"), "https://r.example.com");
}

#[test]
fn token_lookup_matches_host_prefix_and_suffix() {
    let rc = Npmrc::parse(
        "//b.example.com/path/:_authToken=second\n//b.example.com/:_authToken=first\n//b.example.com/:other=x\n",
        &no_env(),
    );
    // Of several matching settings, the one whose name sorts first wins.
    assert_eq!(rc.token_for("http://b.example.com/x"), Some("first".to_string()));
    assert_eq!(rc.token_for("https://c.example.com"), None);
}

#[test]
fn registry_host_strips_scheme_and_path() {
    assert_eq!(registry_host("https://npm.example.com/some/path"), "npm.example.com");
    assert_eq!(registry_host("http://h:8080"), "h:8080");
    assert_eq!(registry_host("plain"), "plain");
}

#[test]
fn packument_url_encodes_scope_slash() {
    assert_eq!(
        packument_url("https://registry.npmjs.org//", "@acme/lib"),
        "https://registry.npmjs.org/@acme%2Flib"
    );
    assert_eq!(packument_url("https://r", "plain"), "https://r/plain");
}

#[test]
fn packument_outcomes() {
    let body = r#"{"dist-tags":{"feat-x":"1.0.0-feat-x.1"}}"#;
    assert_eq!(
        packument_outcome(HttpReply::Success(body.into()), "u", "n", "feat-x"),
        Ok(Some("1.0.0-feat-x.1".to_string()))
    );
    assert_eq!(packument_outcome(HttpReply::Success(body.into()), "u", "n", "other"), Ok(None));
    assert_eq!(packument_outcome(HttpReply::Status(404), "u", "n", "s"), Ok(None));
    assert_eq!(
        packument_outcome(HttpReply::Status(500), "https://r/n", "n", "s"),
        Err("npm registry https://r/n → HTTP 500".to_string())
    );
    assert_eq!(
        packument_outcome(HttpReply::Transport("dns".into()), "u", "@a/b", "s"),
        Err("querying npm registry for @a/b: dns".to_string())
    );
    assert_eq!(
        packument_outcome(HttpReply::Unreadable("io".into()), "u", "n", "s"),
        Err("io".to_string())
    );
}

#[test]
fn dist_tag_of_non_json_or_non_string_is_none() {
    assert_eq!(dist_tag("not json", "x"), None);
    assert_eq!(dist_tag(r#"{"dist-tags":{"x":1}}"#, "x"), None);
    assert_eq!(dist_tag(r#"{"dist-tags":[]}"#, "x"), None);
}

#[test]
fn npm_resolver_identity() {
    assert_eq!(Npm.key(), "npm");
    assert_eq!(Npm.kind(), "npm");
    assert!(Npm.handles("npm"));
    assert!(!Npm.handles("oci"));
}

#[test]
fn a_token_goes_only_to_its_own_host() {
    let rc = Npmrc::parse("//npm.example.com.evil/:_authToken=tok\n", &no_env());
    assert_eq!(rc.token_for("https://npm.example.com"), None);
    assert_eq!(rc.token_for("https://npm.example.com.evil"), Some("tok".to_string()));
    let rc = Npmrc::parse("//npm.example.com:_authToken=bare\n", &no_env());
    assert_eq!(rc.token_for("https://npm.example.com"), Some("bare".to_string()));
}
