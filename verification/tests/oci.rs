use sync_branch_deps::resolvers::npm::HttpReply;
use sync_branch_deps::resolvers::oci::{
    credential_for, credential_from_auth_json, host_keys, non_empty, parse_bearer_challenge, resolution,
    split_image_prefix, token_from_body, token_url, AfterProbe, AfterToken, AnonymousProbe, HeadReply, Oci,
};
use sync_branch_deps::resolvers::{all, for_key, AnyResolver, Resolver};

#[test]
fn handles_oci_and_images_aliases() {
    assert!(Oci.handles("oci"));
    assert!(Oci.handles("images"));
    assert!(!Oci.handles("npm"));
}

#[test]
fn split_is_registry_agnostic() {
    assert_eq!(
        split_image_prefix("ghcr.io/acme/service"),
        ("ghcr.io".into(), "acme/service".into())
    );
    assert_eq!(
        split_image_prefix("quay.io/acme/other"),
        ("quay.io".into(), "acme/other".into())
    );
    assert_eq!(
        split_image_prefix("localhost:5000/img"),
        ("localhost:5000".into(), "img".into())
    );
    assert_eq!(
        split_image_prefix("nginx"),
        ("registry-1.docker.io".into(), "library/nginx".into())
    );
    assert_eq!(
        split_image_prefix("bitnami/postgresql"),
        ("registry-1.docker.io".into(), "bitnami/postgresql".into())
    );
}

#[test]
fn parses_bearer_challenge_params() {
    let h = r#"Bearer realm="https://ghcr.io/token",service="ghcr.io",scope="repository:acme/service:pull""#;
    let p = parse_bearer_challenge(h);
    assert_eq!(p.get("realm").unwrap(), "https://ghcr.io/token");
    assert_eq!(p.get("service").unwrap(), "ghcr.io");
    assert_eq!(p.get("scope").unwrap(), "repository:acme/service:pull");
}

#[test]
fn reads_credential_for_bare_and_url_host_keys() {
    let doc = r#"{"auths":{"ghcr.io":{"auth":"Z2g6dG9r"}}}"#;
    assert_eq!(
        credential_from_auth_json(doc, "ghcr.io").as_deref(),
        Some("Z2g6dG9r")
    );

    let url = r#"{"auths":{"https://quay.io":{"auth":"cXVheTp0"}}}"#;
    assert_eq!(
        credential_from_auth_json(url, "quay.io").as_deref(),
        Some("cXVheTp0")
    );
}

#[test]
fn docker_hub_matches_legacy_index_key() {
    let doc = r#"{"auths":{"https://index.docker.io/v1/":{"auth":"ZGg6dA=="}}}"#;
    assert_eq!(
        credential_from_auth_json(doc, "registry-1.docker.io").as_deref(),
        Some("ZGg6dA==")
    );
}

#[test]
fn missing_host_empty_blob_or_malformed_is_none() {
    let doc = r#"{"auths":{"ghcr.io":{"auth":"Z2g6dG9r"}}}"#;
    assert_eq!(credential_from_auth_json(doc, "quay.io"), None);
    assert_eq!(
        credential_from_auth_json(r#"{"auths":{"ghcr.io":{"auth":""}}}"#, "ghcr.io"),
        None
    );
    assert_eq!(
        credential_from_auth_json(r#"{"auths":{"ghcr.io":{}}}"#, "ghcr.io"),
        None
    );
    assert_eq!(credential_from_auth_json("not json", "ghcr.io"), None);
    assert_eq!(credential_from_auth_json("{}", "ghcr.io"), None);
}

#[test]
fn split_keeps_docker_hub_hosts_normalized() {
    assert_eq!(
        split_image_prefix("docker.io/nginx"),
        ("registry-1.docker.io".into(), "library/nginx".into())
    );
    assert_eq!(
        split_image_prefix("registry-1.docker.io/acme/x"),
        ("registry-1.docker.io".into(), "acme/x".into())
    );
    assert_eq!(
        split_image_prefix("localhost/img"),
        ("localhost".into(), "img".into())
    );
}

#[test]
fn challenge_without_bearer_prefix_and_with_spaces() {
    let p = parse_bearer_challenge(r#"  realm = "r" , service="s"  "#);
    assert_eq!(p.get("realm").as_deref(), Some("r"));
    assert_eq!(p.get("service").as_deref(), Some("s"));
    assert_eq!(p.get("scope"), None);
}

#[test]
fn token_url_appends_present_params() {
    let p = parse_bearer_challenge(r#"Bearer realm="https://a/token",service="a",scope="repo:x:pull""#);
    assert_eq!(token_url(&p).unwrap(), "https://a/token?service=a&scope=repo:x:pull");
    let p = parse_bearer_challenge(r#"Bearer realm="https://a/token",scope="repo:x:pull""#);
    assert_eq!(token_url(&p).unwrap(), "https://a/token?scope=repo:x:pull");
    let p = parse_bearer_challenge(r#"Bearer service="a""#);
    assert_eq!(token_url(&p), Err("auth challenge missing realm".to_string()));
}

#[test]
fn token_body_prefers_token_then_access_token() {
    assert_eq!(token_from_body(r#"{"token":"t","access_token":"a"}"#).unwrap(), "t");
    assert_eq!(token_from_body(r#"{"access_token":"a"}"#).unwrap(), "a");
    assert_eq!(
        token_from_body(r#"{}"#),
        Err("token response missing 'token'/'access_token'".to_string())
    );
    assert!(token_from_body("nope").unwrap_err().starts_with("parsing registry token response: "));
}

#[test]
fn host_keys_for_docker_hub_include_legacy_keys() {
    assert_eq!(host_keys("ghcr.io"), ["ghcr.io", "https://ghcr.io"]);
    assert_eq!(
        host_keys("docker.io"),
        ["docker.io", "https://docker.io", "index.docker.io", "https://index.docker.io/v1/"]
    );
}

#[test]
fn credential_sources_are_searched_in_order() {
    let docs = vec![
        r#"{"auths":{"quay.io":{"auth":"first"}}}"#.to_string(),
        r#"{"auths":{"ghcr.io":{"auth":"second"}}}"#.to_string(),
        r#"{"auths":{"ghcr.io":{"auth":"third"}}}"#.to_string(),
    ];
    assert_eq!(credential_for(&docs, "ghcr.io").as_deref(), Some("second"));
    assert_eq!(credential_for(&docs, "other.io"), None);
    assert_eq!(credential_for(&Vec::new(), "ghcr.io"), None);
}

#[test]
fn non_empty_drops_empty_values() {
    assert_eq!(non_empty(Some(String::new())), None);
    assert_eq!(non_empty(Some("x".into())).as_deref(), Some("x"));
    assert_eq!(non_empty(None), None);
}

#[test]
fn anonymous_probe_url_and_outcomes() {
    let probe = AnonymousProbe::start("ghcr.io/acme/svc", "feat-x");
    assert_eq!(probe.url, "https://ghcr.io/v2/acme/svc/manifests/feat-x");
    assert_eq!(probe.host, "ghcr.io");
    assert!(matches!(
        AnonymousProbe::start("a.io/b", "t").on_reply(HeadReply::Status { code: 200, challenge: None }),
        AfterProbe::Done(Ok(true))
    ));
    assert!(matches!(
        AnonymousProbe::start("a.io/b", "t").on_reply(HeadReply::Status { code: 404, challenge: None }),
        AfterProbe::Done(Ok(false))
    ));
    match AnonymousProbe::start("a.io/b", "t").on_reply(HeadReply::Status { code: 500, challenge: None }) {
        AfterProbe::Done(Err(m)) => assert_eq!(m, "a.io/b:t → HTTP 500"),
        _ => panic!("expected a failure"),
    }
    match AnonymousProbe::start("a.io/b", "t").on_reply(HeadReply::Status { code: 401, challenge: None }) {
        AfterProbe::Done(Err(m)) => assert_eq!(
            m,
            "authenticating to a.io: registry returned 401 without a WWW-Authenticate challenge"
        ),
        _ => panic!("expected a failure"),
    }
    match AnonymousProbe::start("a.io/b", "t").on_reply(HeadReply::Transport("tls".into())) {
        AfterProbe::Done(Err(m)) => assert_eq!(m, "checking a.io/b:t: tls"),
        _ => panic!("expected a failure"),
    }
}

#[test]
fn challenge_leads_through_token_to_authorized_probe() {
    let probe = AnonymousProbe::start("ghcr.io/acme/svc", "feat-x");
    let challenge = r#"Bearer realm="https://ghcr.io/token",service="ghcr.io",scope="repository:acme/svc:pull""#;
    let wait = match probe.on_reply(HeadReply::Status { code: 401, challenge: Some(challenge.into()) }) {
        AfterProbe::FetchToken { wait, url } => {
            assert_eq!(url, "https://ghcr.io/token?service=ghcr.io&scope=repository:acme/svc:pull");
            wait
        }
        _ => panic!("expected a token request"),
    };
    let (authorized, token) = match wait.on_reply(HttpReply::Success(r#"{"token":"abc"}"#.into())) {
        AfterToken::Head { probe, token } => (probe, token),
        _ => panic!("expected a second probe"),
    };
    assert_eq!(token, "abc");
    assert_eq!(authorized.url, "https://ghcr.io/v2/acme/svc/manifests/feat-x");
    assert_eq!(authorized.on_reply(HeadReply::Status { code: 200, challenge: None }), Ok(true));
}

#[test]
fn token_failures_and_authorized_statuses() {
    let challenge = r#"Bearer realm="https://q/token""#;
    let fresh_wait = || match AnonymousProbe::start("q.io/r", "t")
        .on_reply(HeadReply::Status { code: 401, challenge: Some(challenge.into()) })
    {
        AfterProbe::FetchToken { wait, .. } => wait,
        _ => panic!("expected a token request"),
    };
    match fresh_wait().on_reply(HttpReply::Status(403)) {
        AfterToken::Done(Err(m)) => assert_eq!(m, "authenticating to q.io: requesting registry token: HTTP 403"),
        _ => panic!("expected a failure"),
    }
    match fresh_wait().on_reply(HttpReply::Success("{}".into())) {
        AfterToken::Done(Err(m)) => {
            assert_eq!(m, "authenticating to q.io: token response missing 'token'/'access_token'")
        }
        _ => panic!("expected a failure"),
    }
    let authorized = match fresh_wait().on_reply(HttpReply::Success(r#"{"access_token":"z"}"#.into())) {
        AfterToken::Head { probe, .. } => probe,
        _ => panic!("expected a second probe"),
    };
    assert_eq!(
        authorized.on_reply(HeadReply::Status { code: 401, challenge: None }),
        Err("q.io/r:t → HTTP 401 after auth".to_string())
    );
}

#[test]
fn resolution_of_a_tag_lookup() {
    assert_eq!(resolution(true, "feat-x").as_deref(), Some("feat-x"));
    assert_eq!(resolution(false, "feat-x"), None);
}

#[test]
fn resolvers_by_key() {
    assert!(matches!(for_key("npm"), Some(AnyResolver::Npm(_))));
    assert!(matches!(for_key("oci"), Some(AnyResolver::Oci(_))));
    assert!(matches!(for_key("images"), Some(AnyResolver::Oci(_))));
    assert!(for_key("totally-unknown").is_none());
    let keys: Vec<&str> = all().iter().map(|r| r.key()).collect();
    assert_eq!(keys, ["npm", "oci"]);
    assert_eq!(Oci.kind(), "oci");
}

#[test]
fn a_comma_inside_a_quoted_value_does_not_split_it() {
    let h = r#"Bearer realm="https://auth.docker.io/token",service="registry.docker.io",scope="repository:samalba/my-app:pull,push""#;
    let p = parse_bearer_challenge(h);
    assert_eq!(p.get("realm").as_deref(), Some("https://auth.docker.io/token"));
    assert_eq!(p.get("service").as_deref(), Some("registry.docker.io"));
    assert_eq!(p.get("scope").as_deref(), Some("repository:samalba/my-app:pull,push"));
}
