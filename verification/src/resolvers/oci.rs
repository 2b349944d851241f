//! Container images on any OCI-Distribution registry (ghcr.io, Docker Hub,
//! Quay, GitLab, a private registry...). Existence is a manifest `HEAD` that
//! follows the registry's `WWW-Authenticate: Bearer` challenge for a token.

use vstd::prelude::*;

use crate::json::{as_str, member, parse_json, json_document, spec_as_str, spec_member, JsonValue};
use crate::resolvers::npm::{assoc_insert, env_view, lookup, lookup_exec, rc_insert, HttpReply};
use crate::resolvers::Resolver;
use crate::text::{
    chars_of_range, concat, decimal, from_chars, has_prefix, holds_at, index_of_char, lemma_index_of_char,
    position_of, spec_decimal, spec_strip_prefix, spec_trim, str_eq, strip_prefix, to_chars, trim,
};

verus! {

broadcast use vstd::string::group_string_axioms;

#[derive(Clone, Copy)]
pub struct Oci;

impl Resolver for Oci {
    open spec fn spec_key(&self) -> Seq<char> {
        "oci"@
    }

    /// `images` is the historical key; it is accepted as an alias for `oci`.
    open spec fn spec_handles(&self, key: Seq<char>) -> bool {
        key == "oci"@ || key == "images"@
    }

    open spec fn spec_kind(&self) -> Seq<char> {
        "oci"@
    }

    fn key(&self) -> (r: &'static str) {
        "oci"
    }

    fn handles(&self, key: &str) -> (r: bool) {
        str_eq(key, "oci") || str_eq(key, "images")
    }

    fn kind(&self) -> (r: &'static str) {
        "oci"
    }
}

/// Split an image prefix into the API host and the repository for the OCI
/// Distribution API: `ghcr.io/org/img` is (`ghcr.io`, `org/img`). A first
/// segment names a host when it holds `.` or `:` or is `localhost`; a prefix
/// with no host segment is on Docker Hub, whose API host is
/// `registry-1.docker.io` and whose single-segment repositories live under
/// `library/`.
pub open spec fn spec_split_image_prefix(prefix: Seq<char>) -> (Seq<char>, Seq<char>) {
    let slash = index_of_char(prefix, '/', 0);
    let first = prefix.take(slash);
    let (host, repo) = if slash < prefix.len() && (first.contains('.') || first.contains(':') || first == "localhost"@) {
        (first, prefix.skip(slash + 1))
    } else {
        ("docker.io"@, prefix)
    };
    if host == "docker.io"@ || host == "registry-1.docker.io"@ {
        ("registry-1.docker.io"@, if repo.contains('/') {
            repo
        } else {
            "library/"@ + repo
        })
    } else {
        (host, repo)
    }
}

fn contains_char(s: &Vec<char>, c: char) -> (r: bool)
    ensures
        r == s@.contains(c),
{
    let mut i: usize = 0;
    while i < s.len()
        invariant
            i <= s.len(),
            forall|j: int| 0 <= j < i ==> s@[j] != c,
        decreases s.len() - i,
    {
        if s[i] == c {
            assert(s@[i as int] == c);
            return true;
        }
        i = i + 1;
    }
    false
}

/// Split an image prefix into `(api_host, repository)`.
pub fn split_image_prefix(prefix: &str) -> (r: (String, String))
    ensures
        (r.0@, r.1@) == spec_split_image_prefix(prefix@),
{
    let p = to_chars(prefix);
    let slash = position_of(&p, '/', 0);
    let first = chars_of_range(&p, 0, slash);
    assert(first@ == p@.take(slash as int));
    let first_s = from_chars(&first);
    let named_host = slash < p.len() && (contains_char(&first, '.') || contains_char(&first, ':') || str_eq(
        first_s.as_str(),
        "localhost",
    ));
    let (host, repo) = if named_host {
        assert(p@.skip(slash + 1) == p@.subrange(slash + 1, p@.len() as int));
        (first_s, from_chars(&chars_of_range(&p, slash + 1, p.len())))
    } else {
        (String::from_str("docker.io"), String::from_str(prefix))
    };
    if str_eq(host.as_str(), "docker.io") || str_eq(host.as_str(), "registry-1.docker.io") {
        let repo = if contains_char(&to_chars(repo.as_str()), '/') {
            repo
        } else {
            concat("library/", repo.as_str())
        };
        (String::from_str("registry-1.docker.io"), repo)
    } else {
        (host, repo)
    }
}

/// The manifest URL of an image tag on its registry.
pub open spec fn spec_manifest_url(prefix: Seq<char>, tag: Seq<char>) -> Seq<char> {
    let (host, repo) = spec_split_image_prefix(prefix);
    "https://"@ + host + "/v2/"@ + repo + "/manifests/"@ + tag
}

/// The index of the first `,` at or after `i` that is outside a double-quoted
/// string (or the length), where `quoted` says whether `i` is inside one: each
/// `"` opens or closes a quoted string.
pub open spec fn unquoted_comma(s: Seq<char>, i: int, quoted: bool) -> int
    decreases s.len() - i,
{
    if 0 <= i < s.len() {
        if s[i] == '"' {
            unquoted_comma(s, i + 1, !quoted)
        } else if s[i] == ',' && !quoted {
            i
        } else {
            unquoted_comma(s, i + 1, quoted)
        }
    } else {
        i
    }
}

pub proof fn lemma_unquoted_comma(s: Seq<char>, i: int, quoted: bool)
    requires
        0 <= i <= s.len(),
    ensures
        i <= unquoted_comma(s, i, quoted) <= s.len(),
        unquoted_comma(s, i, quoted) < s.len() ==> s[unquoted_comma(s, i, quoted)] == ',',
    decreases s.len() - i,
{
    if i < s.len() {
        if s[i] == '"' {
            lemma_unquoted_comma(s, i + 1, !quoted);
        } else if !(s[i] == ',' && !quoted) {
            lemma_unquoted_comma(s, i + 1, quoted);
        }
    }
}

proof fn lemma_unquoted_comma_shift(s: Seq<char>, base: int, i: int, quoted: bool)
    requires
        0 <= base <= i <= s.len(),
    ensures
        unquoted_comma(s.skip(base), i - base, quoted) == unquoted_comma(s, i, quoted) - base,
    decreases s.len() - i,
{
    if i < s.len() {
        assert(s.skip(base)[i - base] == s[i]);
        if s[i] == '"' {
            lemma_unquoted_comma_shift(s, base, i + 1, !quoted);
        } else if !(s[i] == ',' && !quoted) {
            lemma_unquoted_comma_shift(s, base, i + 1, quoted);
        }
    }
}

/// The pieces of `s` between the commas that stand outside double-quoted
/// strings: a comma inside a quoted value belongs to the value.
pub open spec fn comma_pieces(s: Seq<char>) -> Seq<Seq<char>>
    decreases s.len(),
{
    let n = unquoted_comma(s, 0, false);
    proof {
        lemma_unquoted_comma(s, 0, false);
    }
    if n >= s.len() {
        seq![s]
    } else {
        seq![s.take(n)] + comma_pieces(s.skip(n + 1))
    }
}

/// The first `,` at or after `start` outside a double-quoted string (or the
/// length); `start` is outside any quoted string.
fn find_unquoted_comma(s: &Vec<char>, start: usize) -> (r: usize)
    requires
        start <= s.len(),
    ensures
        r as int == unquoted_comma(s@, start as int, false),
{
    let mut i = start;
    let mut quoted = false;
    while i < s.len()
        invariant
            start <= i <= s.len(),
            unquoted_comma(s@, start as int, false) == unquoted_comma(s@, i as int, quoted),
        decreases s.len() - i,
    {
        if s[i] == '"' {
            quoted = !quoted;
        } else if s[i] == ',' && !quoted {
            return i;
        }
        i = i + 1;
    }
    i
}

/// `s` without its leading and trailing `"` characters.
pub open spec fn trim_quotes(s: Seq<char>) -> Seq<char>
    decreases s.len(),
{
    if s.len() > 0 && s[0] == '"' {
        trim_quotes(s.drop_first())
    } else if s.len() > 0 && s.last() == '"' {
        trim_quotes(s.drop_last())
    } else {
        s
    }
}

/// One `key=value` piece of a challenge added to the parameters; a piece
/// without `=` adds nothing.
pub open spec fn add_param(params: Seq<(Seq<char>, Seq<char>)>, piece: Seq<char>) -> Seq<(Seq<char>, Seq<char>)> {
    let eq = index_of_char(piece, '=', 0);
    if eq < piece.len() {
        rc_insert(params, spec_trim(piece.take(eq)), trim_quotes(spec_trim(piece.skip(eq + 1))))
    } else {
        params
    }
}

pub open spec fn add_params(params: Seq<(Seq<char>, Seq<char>)>, pieces: Seq<Seq<char>>) -> Seq<(Seq<char>, Seq<char>)>
    decreases pieces.len(),
{
    if pieces.len() == 0 {
        params
    } else {
        add_param(add_params(params, pieces.drop_last()), pieces.last())
    }
}

/// The parameters of a `WWW-Authenticate: Bearer realm="...",service="...",
/// scope="..."` challenge: the header trimmed, its `Bearer ` scheme removed,
/// then each `key=value` between the commas outside quoted values, with the
/// key trimmed and the value trimmed and unquoted. A repeated key keeps its
/// last value.
pub open spec fn spec_parse_bearer_challenge(header: Seq<char>) -> Seq<(Seq<char>, Seq<char>)> {
    let t = spec_trim(header);
    let rest = match spec_strip_prefix(t, "Bearer "@) {
        Some(r) => r,
        None => t,
    };
    add_params(Seq::empty(), comma_pieces(rest))
}

/// The parameters of an auth challenge.
pub struct Params {
    entries: Vec<(String, String)>,
}

impl Params {
    pub closed spec fn spec_entries(&self) -> Seq<(Seq<char>, Seq<char>)> {
        env_view(self.entries@)
    }

    /// The value of the parameter `key`.
    pub open spec fn spec_get(&self, key: Seq<char>) -> Option<Seq<char>> {
        lookup(self.spec_entries(), key)
    }

    /// The value of the parameter `key`.
    pub fn get(&self, key: &str) -> (r: Option<String>)
        ensures
            match self.spec_get(key@) {
                Some(v) => r matches Some(s) && s@ == v,
                None => r is None,
            },
    {
        lookup_exec(&self.entries, key)
    }
}

fn trim_quote_chars(s: &Vec<char>) -> (r: Vec<char>)
    ensures
        r@ == trim_quotes(s@),
{
    let mut start: usize = 0;
    let mut end: usize = s.len();
    assert(s@.subrange(0, s@.len() as int) =~= s@);
    while start < end && (s[start] == '"' || s[end - 1] == '"')
        invariant
            start <= end <= s.len(),
            trim_quotes(s@) == trim_quotes(s@.subrange(start as int, end as int)),
        decreases end - start,
    {
        let ghost cur = s@.subrange(start as int, end as int);
        if s[start] == '"' {
            assert(cur.drop_first() =~= s@.subrange(start + 1, end as int));
            start = start + 1;
        } else {
            assert(cur.drop_last() =~= s@.subrange(start as int, end - 1));
            end = end - 1;
        }
    }
    chars_of_range(s, start, end)
}

/// Parse a `WWW-Authenticate: Bearer realm="...",service="...",scope="..."`
/// challenge.
pub fn parse_bearer_challenge(header: &str) -> (r: Params)
    ensures
        r.spec_entries() == spec_parse_bearer_challenge(header@),
{
    let t = trim(&to_chars(header));
    let rest = match strip_prefix(&t, "Bearer ") {
        Some(r) => r,
        None => t,
    };
    let mut entries: Vec<(String, String)> = Vec::new();
    let ghost pieces = comma_pieces(rest@);
    let mut start: usize = 0;
    let ghost done: Seq<Seq<char>> = Seq::empty();
    assert(rest@.skip(0) == rest@);
    assert(env_view(entries@) =~= Seq::<(Seq<char>, Seq<char>)>::empty());
    loop
        invariant_except_break
            start <= rest.len(),
            pieces == done + comma_pieces(rest@.skip(start as int)),
            env_view(entries@) == add_params(Seq::empty(), done),
        ensures
            env_view(entries@) == add_params(Seq::empty(), pieces),
        decreases rest.len() - start,
    {
        let ghost tail = rest@.skip(start as int);
        let n = find_unquoted_comma(&rest, start);
        proof {
            lemma_unquoted_comma(tail, 0, false);
            lemma_unquoted_comma_shift(rest@, start as int, start as int, false);
        }
        let piece = chars_of_range(&rest, start, n);
        assert(piece@ == tail.take(n - start));
        let eq = position_of(&piece, '=', 0);
        if eq < piece.len() {
            let key = from_chars(&trim(&chars_of_range(&piece, 0, eq)));
            let value = from_chars(&trim_quote_chars(&trim(&chars_of_range(&piece, eq + 1, piece.len()))));
            proof {
                assert(piece@.take(eq as int) == piece@.subrange(0, eq as int));
                assert(piece@.skip(eq + 1) == piece@.subrange(eq + 1, piece@.len() as int));
            }
            assoc_insert(&mut entries, key, value);
        }
        proof {
            assert((done.push(piece@)).drop_last() =~= done);
            done = done.push(piece@);
        }
        if n >= rest.len() {
            assert(comma_pieces(tail) == seq![tail]);
            assert(tail == piece@);
            assert(pieces =~= done);
            break;
        }
        assert(tail.skip(n - start + 1) =~= rest@.skip(n + 1));
        assert(comma_pieces(tail) == seq![piece@] + comma_pieces(rest@.skip(n + 1)));
        assert(pieces =~= done + comma_pieces(rest@.skip(n + 1)));
        start = n + 1;
    }
    Params { entries }
}

/// The token endpoint a challenge names: its realm, with `service` and
/// `scope` appended as query parameters when present.
pub open spec fn spec_token_url(params: Seq<(Seq<char>, Seq<char>)>) -> Result<Seq<char>, Seq<char>> {
    match lookup(params, "realm"@) {
        None => Err("auth challenge missing realm"@),
        Some(realm) => {
            let with_service = match lookup(params, "service"@) {
                Some(v) => realm + "?service="@ + v,
                None => realm,
            };
            let sep = if lookup(params, "service"@) is Some {
                "&"@
            } else {
                "?"@
            };
            Ok(match lookup(params, "scope"@) {
                Some(v) => with_service + sep + "scope="@ + v,
                None => with_service,
            })
        },
    }
}

/// The token endpoint a challenge names.
pub fn token_url(params: &Params) -> (r: Result<String, String>)
    ensures
        spec_token_url(params.spec_entries()) == match r {
            Ok(u) => Ok(u@),
            Err(e) => Err(e@),
        },
{
    let mut url = match params.get("realm") {
        Some(r) => r,
        None => return Err(String::from_str("auth challenge missing realm")),
    };
    let mut sep = "?";
    match params.get("service") {
        Some(v) => {
            url.append("?service=");
            url.append(v.as_str());
            sep = "&";
        },
        None => {},
    }
    match params.get("scope") {
        Some(v) => {
            url.append(sep);
            url.append("scope=");
            url.append(v.as_str());
        },
        None => {},
    }
    Ok(url)
}

/// The token of a token response: its `token`, or when it has none, its
/// `access_token`, as a string.
pub open spec fn spec_token_of(doc: crate::json::JsonSpec) -> Option<Seq<char>> {
    match spec_member(doc, "token"@) {
        Some(t) => spec_as_str(t),
        None => match spec_member(doc, "access_token"@) {
            Some(t) => spec_as_str(t),
            None => None,
        },
    }
}

pub open spec fn missing_token_message() -> Seq<char> {
    "token response missing 'token'/'access_token'"@
}

/// The token in a token response body. `Err` when the body is not JSON (the
/// message then begins `parsing registry token response: `) or holds no
/// token.
pub fn token_from_body(body: &str) -> (r: Result<String, String>)
    ensures
        match json_document(body@) {
            None => r matches Err(e) && has_prefix(e@, "parsing registry token response: "@),
            Some(doc) => match spec_token_of(doc) {
                Some(t) => r matches Ok(s) && s@ == t,
                None => r matches Err(e) && e@ == missing_token_message(),
            },
        },
{
    let doc = match parse_json(body) {
        Ok(d) => d,
        Err(detail) => {
            let e = concat("parsing registry token response: ", detail.as_str());
            proof {
                assert(e@.take("parsing registry token response: "@.len() as int) =~= "parsing registry token response: "@);
            }
            return Err(e);
        },
    };
    let token = match member(&doc, "token") {
        Some(t) => as_str(t),
        None => match member(&doc, "access_token") {
            Some(t) => as_str(t),
            None => None,
        },
    };
    match token {
        Some(t) => Ok(String::from_str(t)),
        None => Err(String::from_str("token response missing 'token'/'access_token'")),
    }
}

/// Keys an auth file might store a host under: the bare API host and its
/// `https://` form, plus Docker Hub's legacy `index.docker.io` keys.
pub open spec fn spec_host_keys(host: Seq<char>) -> Seq<Seq<char>> {
    let keys = seq![host, "https://"@ + host];
    if host == "registry-1.docker.io"@ || host == "docker.io"@ {
        keys + seq!["index.docker.io"@, "https://index.docker.io/v1/"@]
    } else {
        keys
    }
}

/// Keys an auth file might store a host under.
pub fn host_keys(host: &str) -> (r: Vec<String>)
    ensures
        r@.map_values(|k: String| k@) == spec_host_keys(host@),
{
    let mut keys: Vec<String> = Vec::new();
    keys.push(String::from_str(host));
    keys.push(concat("https://", host));
    if str_eq(host, "registry-1.docker.io") || str_eq(host, "docker.io") {
        keys.push(String::from_str("index.docker.io"));
        keys.push(String::from_str("https://index.docker.io/v1/"));
    }
    assert(keys@.map_values(|k: String| k@) =~= spec_host_keys(host@));
    keys
}

/// The credential an auth entry holds: its non-empty `auth` string.
pub open spec fn entry_credential(entry: crate::json::JsonSpec) -> Option<Seq<char>> {
    match spec_member(entry, "auth"@) {
        Some(a) => match spec_as_str(a) {
            Some(s) => if s.len() > 0 {
                Some(s)
            } else {
                None
            },
            None => None,
        },
        None => None,
    }
}

/// The credential of the first key in `keys` that `auths` has one under.
pub open spec fn first_credential(auths: Seq<(Seq<char>, crate::json::JsonSpec)>, keys: Seq<Seq<char>>) -> Option<Seq<char>>
    decreases keys.len(),
{
    if keys.len() == 0 {
        None
    } else {
        match crate::json::member_of(auths, keys[0]) {
            Some(entry) => match entry_credential(entry) {
                Some(c) => Some(c),
                None => first_credential(auths, keys.drop_first()),
            },
            None => first_credential(auths, keys.drop_first()),
        }
    }
}

/// `auths.<host>.auth` of an OCI auth-config document (a base64 `user:pass`,
/// which is exactly an HTTP Basic value), trying the keys a host may be
/// stored under in order; nothing when the text is not JSON, has no `auths`
/// object, or holds no non-empty credential for the host.
pub open spec fn spec_credential_from_auth_json(body: Seq<char>, host: Seq<char>) -> Option<Seq<char>> {
    match json_document(body) {
        Some(doc) => match spec_member(doc, "auths"@) {
            Some(crate::json::JsonSpec::Object(auths)) => first_credential(auths, spec_host_keys(host)),
            _ => None,
        },
        None => None,
    }
}

fn credential_of_entry(entry: &JsonValue) -> (r: Option<String>)
    ensures
        match entry_credential(entry@) {
            Some(c) => r matches Some(s) && s@ == c,
            None => r is None,
        },
{
    match member(entry, "auth") {
        Some(a) => match as_str(a) {
            Some(s) => if s.is_empty() {
                None
            } else {
                Some(String::from_str(s))
            },
            None => None,
        },
        None => None,
    }
}

/// Extract `auths.<host>.auth` from an OCI auth-config document.
pub fn credential_from_auth_json(body: &str, host: &str) -> (r: Option<String>)
    ensures
        match spec_credential_from_auth_json(body@, host@) {
            Some(c) => r matches Some(s) && s@ == c,
            None => r is None,
        },
{
    let doc = match parse_json(body) {
        Ok(d) => d,
        Err(_) => return None,
    };
    let auths = match member(&doc, "auths") {
        Some(a) => a,
        None => return None,
    };
    let members = match auths {
        JsonValue::Object(m) => m,
        _ => return None,
    };
    let keys = host_keys(host);
    let ghost kv = keys@.map_values(|k: String| k@);
    let ghost av = crate::json::members_view(members@);
    assert(auths@ == crate::json::JsonSpec::Object(av));
    let mut i: usize = 0;
    assert(kv.skip(0) == kv);
    assert(spec_credential_from_auth_json(body@, host@) == first_credential(av, kv));
    while i < keys.len()
        invariant
            i <= keys.len(),
            kv == keys@.map_values(|k: String| k@),
            av == crate::json::members_view(members@),
            spec_credential_from_auth_json(body@, host@) == first_credential(av, kv),
            first_credential(av, kv) == first_credential(av, kv.skip(i as int)),
        decreases keys.len() - i,
    {
        proof {
            assert(kv.skip(i as int).drop_first() =~= kv.skip(i + 1));
            assert(kv.skip(i as int)[0] == keys@[i as int]@);
            crate::json::lemma_members_view(members@);
            crate::json::lemma_member_index(av, keys@[i as int]@);
        }
        match crate::json::find_member(members, keys[i].as_str()) {
            Some(j) => {
                assert(av[j as int] == (members@[j as int].0@, members@[j as int].1@));
                match credential_of_entry(&members[j].1) {
                    Some(c) => return Some(c),
                    None => {},
                }
            },
            None => {},
        }
        i = i + 1;
    }
    None
}

/// The credential for `host` in the first of `documents` that holds one
/// (highest precedence first).
pub open spec fn spec_credential_for(documents: Seq<Seq<char>>, host: Seq<char>) -> Option<Seq<char>>
    decreases documents.len(),
{
    if documents.len() == 0 {
        None
    } else {
        match spec_credential_from_auth_json(documents[0], host) {
            Some(c) => Some(c),
            None => spec_credential_for(documents.drop_first(), host),
        }
    }
}

/// The credential for `host` in the first auth document that holds one.
pub fn credential_for(documents: &Vec<String>, host: &str) -> (r: Option<String>)
    ensures
        match spec_credential_for(documents@.map_values(|d: String| d@), host@) {
            Some(c) => r matches Some(s) && s@ == c,
            None => r is None,
        },
{
    let ghost dv = documents@.map_values(|d: String| d@);
    let mut i: usize = 0;
    assert(dv.skip(0) == dv);
    while i < documents.len()
        invariant
            i <= documents.len(),
            dv == documents@.map_values(|d: String| d@),
            spec_credential_for(dv, host@) == spec_credential_for(dv.skip(i as int), host@),
        decreases documents.len() - i,
    {
        assert(dv.skip(i as int).drop_first() =~= dv.skip(i + 1));
        assert(dv.skip(i as int)[0] == documents@[i as int]@);
        match credential_from_auth_json(documents[i].as_str(), host) {
            Some(c) => return Some(c),
            None => {},
        }
        i = i + 1;
    }
    None
}

/// A value, unless it is empty.
pub fn non_empty(v: Option<String>) -> (r: Option<String>)
    ensures
        match v {
            Some(s) => if s@.len() > 0 {
                r == Some(s)
            } else {
                r is None
            },
            None => r is None,
        },
{
    match v {
        Some(s) => if s.as_str().is_empty() {
            None
        } else {
            Some(s)
        },
        None => None,
    }
}

/// What a manifest `HEAD` request gave.
pub enum HeadReply {
    /// The status code, and the `WWW-Authenticate` header if there was one.
    Status { code: u16, challenge: Option<String> },
    /// The request did not complete (DNS, TLS, timeout...).
    Transport(String),
}

pub open spec fn is_success(code: u16) -> bool {
    200 <= code < 300
}

pub open spec fn opt_text(o: Option<String>) -> Option<Seq<char>> {
    match o {
        Some(s) => Some(s@),
        None => None,
    }
}

pub open spec fn result_text(r: Result<bool, String>) -> Result<bool, Seq<char>> {
    match r {
        Ok(b) => Ok(b),
        Err(e) => Err(e@),
    }
}

/// `<prefix>:<tag>`, as messages name an image tag.
pub open spec fn image_ref(prefix: Seq<char>, tag: Seq<char>) -> Seq<char> {
    prefix + seq![':'] + tag
}

/// A failure while authenticating to `host`.
pub open spec fn auth_failure(host: Seq<char>, why: Seq<char>) -> Seq<char> {
    "authenticating to "@ + host + ": "@ + why
}

/// The first, anonymous, manifest `HEAD` of a tag lookup.
pub struct AnonymousProbe {
    pub prefix: String,
    pub tag: String,
    pub host: String,
    pub url: String,
}

/// A tag lookup waiting for the registry's token.
pub struct TokenWait {
    pub prefix: String,
    pub tag: String,
    pub host: String,
    pub url: String,
}

/// The manifest `HEAD` of a tag lookup that presents a token.
pub struct AuthorizedProbe {
    pub prefix: String,
    pub tag: String,
    pub url: String,
}

/// What follows the anonymous probe.
pub enum AfterProbe {
    /// The lookup is over: whether the tag exists, or why it could not be told.
    Done(Result<bool, String>),
    /// Request a token from `url`, presenting `host`'s credential when one is
    /// configured, then hand the reply to `wait`.
    FetchToken { wait: TokenWait, url: String },
}

/// What follows the token request.
pub enum AfterToken {
    /// The lookup is over with a failure to authenticate.
    Done(Result<bool, String>),
    /// Send the manifest `HEAD` again with `token`, and hand the reply to
    /// `probe`.
    Head { probe: AuthorizedProbe, token: String },
}

/// What the anonymous probe's reply means: a success status means the tag
/// exists, `404` that it does not, `401` that a token must be fetched from the
/// challenge's realm; anything else is a lookup failure.
pub open spec fn spec_after_probe(prefix: Seq<char>, tag: Seq<char>, host: Seq<char>, reply: HeadReply) -> Result<Option<bool>, Seq<char>> {
    match reply {
        HeadReply::Status { code, challenge } => if is_success(code) {
            Ok(Some(true))
        } else if code == 404 {
            Ok(Some(false))
        } else if code == 401 {
            match challenge {
                None => Err(auth_failure(host, "registry returned 401 without a WWW-Authenticate challenge"@)),
                Some(h) => match spec_token_url(spec_parse_bearer_challenge(h@)) {
                    Ok(_) => Ok(None),
                    Err(m) => Err(auth_failure(host, m)),
                },
            }
        } else {
            Err(image_ref(prefix, tag) + " → HTTP "@ + spec_decimal(code as nat))
        },
        HeadReply::Transport(e) => Err("checking "@ + image_ref(prefix, tag) + ": "@ + e@),
    }
}

impl AnonymousProbe {
    /// Start looking up `tag` of the image `prefix`: the probe to send first is
    /// an anonymous `HEAD` of `self.url`.
    pub fn start(prefix: &str, tag: &str) -> (r: AnonymousProbe)
        ensures
            r.prefix@ == prefix@,
            r.tag@ == tag@,
            r.host@ == spec_split_image_prefix(prefix@).0,
            r.url@ == spec_manifest_url(prefix@, tag@),
    {
        let (host, repo) = split_image_prefix(prefix);
        let mut url = concat("https://", host.as_str());
        url.append("/v2/");
        url.append(repo.as_str());
        url.append("/manifests/");
        url.append(tag);
        AnonymousProbe { prefix: String::from_str(prefix), tag: String::from_str(tag), host, url }
    }

    /// What the reply to the anonymous probe means.
    pub fn on_reply(self, reply: HeadReply) -> (r: AfterProbe)
        ensures
            match spec_after_probe(self.prefix@, self.tag@, self.host@, reply) {
                Ok(Some(found)) => r matches AfterProbe::Done(Ok(b)) && b == found,
                Err(e) => r matches AfterProbe::Done(Err(m)) && m@ == e,
                Ok(None) => r matches AfterProbe::FetchToken { wait, url } && (match reply {
                    HeadReply::Status { challenge: Some(h), .. } => spec_token_url(
                        spec_parse_bearer_challenge(h@),
                    ) == Ok::<Seq<char>, Seq<char>>(url@),
                    _ => false,
                }) && wait.prefix@ == self.prefix@ && wait.tag@ == self.tag@ && wait.host@ == self.host@
                    && wait.url@ == self.url@,
            },
    {
        proof {
            reveal_strlit(":");
            assert(":"@ =~= seq![':']);
        }
        match reply {
            HeadReply::Status { code, challenge } => {
                if 200 <= code && code < 300 {
                    AfterProbe::Done(Ok(true))
                } else if code == 404 {
                    AfterProbe::Done(Ok(false))
                } else if code == 401 {
                    match challenge {
                        None => AfterProbe::Done(Err(auth_failure_text(
                            self.host.as_str(),
                            "registry returned 401 without a WWW-Authenticate challenge",
                        ))),
                        Some(h) => match token_url(&parse_bearer_challenge(h.as_str())) {
                            Ok(url) => AfterProbe::FetchToken {
                                wait: TokenWait { prefix: self.prefix, tag: self.tag, host: self.host, url: self.url },
                                url,
                            },
                            Err(m) => AfterProbe::Done(Err(auth_failure_text(self.host.as_str(), m.as_str()))),
                        },
                    }
                } else {
                    let mut m = concat(&concat(self.prefix.as_str(), ":"), self.tag.as_str());
                    m.append(" → HTTP ");
                    m.append(decimal(code as usize).as_str());
                    AfterProbe::Done(Err(m))
                }
            },
            HeadReply::Transport(e) => {
                let mut m = concat("checking ", self.prefix.as_str());
                m.append(":");
                m.append(self.tag.as_str());
                m.append(": ");
                m.append(e.as_str());
                AfterProbe::Done(Err(m))
            },
        }
    }
}

fn auth_failure_text(host: &str, why: &str) -> (r: String)
    ensures
        r@ == auth_failure(host@, why@),
{
    let mut m = concat("authenticating to ", host);
    m.append(": ");
    m.append(why);
    m
}

/// What the token reply means: a token to present, or a failure to
/// authenticate.
pub open spec fn spec_after_token(host: Seq<char>, reply: HttpReply) -> Option<Seq<char>> {
    match reply {
        HttpReply::Success(body) => match json_document(body@) {
            Some(doc) => spec_token_of(doc),
            None => None,
        },
        _ => None,
    }
}

/// The failure a token reply that carries no token is reported as.
pub open spec fn spec_token_failure(host: Seq<char>, reply: HttpReply) -> Option<Seq<char>> {
    match reply {
        HttpReply::Success(body) => match json_document(body@) {
            Some(doc) => match spec_token_of(doc) {
                Some(_) => None,
                None => Some(auth_failure(host, missing_token_message())),
            },
            None => None,
        },
        HttpReply::Unreadable(e) => Some(auth_failure(host, e@)),
        HttpReply::Status(code) => Some(auth_failure(host, "requesting registry token: HTTP "@ + spec_decimal(code as nat))),
        HttpReply::Transport(e) => Some(auth_failure(host, "requesting registry token: "@ + e@)),
    }
}

impl TokenWait {
    /// What the token reply means: the token goes on the second `HEAD`; a
    /// failing status, an unreadable or non-JSON body, or a body without a
    /// token is a failure to authenticate.
    pub fn on_reply(self, reply: HttpReply) -> (r: AfterToken)
        ensures
            match spec_after_token(self.host@, reply) {
                Some(t) => r matches AfterToken::Head { probe, token } && token@ == t && probe.prefix@ == self.prefix@
                    && probe.tag@ == self.tag@ && probe.url@ == self.url@,
                None => r matches AfterToken::Done(Err(m)) && match spec_token_failure(self.host@, reply) {
                    Some(f) => m@ == f,
                    None => has_prefix(m@, auth_failure(self.host@, "parsing registry token response: "@)),
                },
            },
    {
        match reply {
            HttpReply::Success(body) => match token_from_body(body.as_str()) {
                Ok(token) => AfterToken::Head {
                    probe: AuthorizedProbe { prefix: self.prefix, tag: self.tag, url: self.url },
                    token,
                },
                Err(m) => {
                    let out = auth_failure_text(self.host.as_str(), m.as_str());
                    proof {
                        let head = "authenticating to "@ + self.host@ + ": "@;
                        let p = "parsing registry token response: "@;
                        if has_prefix(m@, p) {
                            assert(out@ == head + m@);
                            assert(out@.take((head.len() + p.len()) as int) =~= head + p);
                        }
                    }
                    AfterToken::Done(Err(out))
                },
            },
            HttpReply::Unreadable(e) => AfterToken::Done(Err(auth_failure_text(self.host.as_str(), e.as_str()))),
            HttpReply::Status(code) => {
                let why = concat("requesting registry token: HTTP ", decimal(code as usize).as_str());
                AfterToken::Done(Err(auth_failure_text(self.host.as_str(), why.as_str())))
            },
            HttpReply::Transport(e) => {
                let why = concat("requesting registry token: ", e.as_str());
                AfterToken::Done(Err(auth_failure_text(self.host.as_str(), why.as_str())))
            },
        }
    }
}

/// What the reply to the authorized probe means: a success status means the
/// tag exists, `404` that it does not; anything else is a lookup failure.
pub open spec fn spec_after_authorized(prefix: Seq<char>, tag: Seq<char>, reply: HeadReply) -> Result<bool, Seq<char>> {
    match reply {
        HeadReply::Status { code, .. } => if is_success(code) {
            Ok(true)
        } else if code == 404 {
            Ok(false)
        } else {
            Err(image_ref(prefix, tag) + " → HTTP "@ + spec_decimal(code as nat) + " after auth"@)
        },
        HeadReply::Transport(e) => Err("checking "@ + image_ref(prefix, tag) + ": "@ + e@),
    }
}

impl AuthorizedProbe {
    /// What the reply to the authorized probe means.
    pub fn on_reply(self, reply: HeadReply) -> (r: Result<bool, String>)
        ensures
            result_text(r) == spec_after_authorized(self.prefix@, self.tag@, reply),
    {
        proof {
            reveal_strlit(":");
            assert(":"@ =~= seq![':']);
        }
        match reply {
            HeadReply::Status { code, .. } => {
                if 200 <= code && code < 300 {
                    Ok(true)
                } else if code == 404 {
                    Ok(false)
                } else {
                    let mut m = concat(&concat(self.prefix.as_str(), ":"), self.tag.as_str());
                    m.append(" → HTTP ");
                    m.append(decimal(code as usize).as_str());
                    m.append(" after auth");
                    assert(m@ =~= image_ref(self.prefix@, self.tag@) + " → HTTP "@ + spec_decimal(code as nat) + " after auth"@);
                    Err(m)
                }
            },
            HeadReply::Transport(e) => {
                let mut m = concat("checking ", self.prefix.as_str());
                m.append(":");
                m.append(self.tag.as_str());
                m.append(": ");
                m.append(e.as_str());
                assert(m@ =~= "checking "@ + image_ref(self.prefix@, self.tag@) + ": "@ + e@);
                Err(m)
            },
        }
    }
}

/// What a tag lookup means for resolution: an existing tag resolves to the
/// slug itself, a missing one is a miss.
pub fn resolution(exists: bool, slug: &str) -> (r: Option<String>)
    ensures
        exists ==> (r matches Some(s) && s@ == slug@),
        !exists ==> r is None,
{
    if exists {
        Some(String::from_str(slug))
    } else {
        None
    }
}

/// A manifest probe tells a miss from a failure, before and after
/// authenticating: `404` means the tag is absent (a miss, never a failure), a
/// success status that it exists, and after authenticating any other status,
/// or a request that did not complete, is a failure.
pub proof fn lemma_probe_statuses(
    prefix: Seq<char>,
    tag: Seq<char>,
    host: Seq<char>,
    code: u16,
    challenge: Option<String>,
    cause: String,
)
    ensures
        code == 404 ==> spec_after_authorized(prefix, tag, HeadReply::Status { code, challenge }) == Ok::<
            bool,
            Seq<char>,
        >(false),
        code == 404 ==> spec_after_probe(prefix, tag, host, HeadReply::Status { code, challenge }) == Ok::<
            Option<bool>,
            Seq<char>,
        >(Some(false)),
        200 <= code < 300 ==> spec_after_authorized(prefix, tag, HeadReply::Status { code, challenge }) == Ok::<
            bool,
            Seq<char>,
        >(true),
        200 <= code < 300 ==> spec_after_probe(prefix, tag, host, HeadReply::Status { code, challenge }) == Ok::<
            Option<bool>,
            Seq<char>,
        >(Some(true)),
        !(200 <= code < 300) && code != 404 ==> spec_after_authorized(
            prefix,
            tag,
            HeadReply::Status { code, challenge },
        ) is Err,
        spec_after_authorized(prefix, tag, HeadReply::Transport(cause)) is Err,
        spec_after_probe(prefix, tag, host, HeadReply::Transport(cause)) is Err,
{
}

/// Docker Hub is always addressed by its API host, and its repositories
/// always have a namespace (`library/` for single-segment names).
pub proof fn lemma_docker_hub_normalized(prefix: Seq<char>)
    ensures
        spec_split_image_prefix(prefix).0 != "docker.io"@,
        spec_split_image_prefix(prefix).0 == "registry-1.docker.io"@ ==> spec_split_image_prefix(prefix).1.contains('/'),
{
    reveal_strlit("docker.io");
    reveal_strlit("registry-1.docker.io");
    reveal_strlit("library/");
    let slash = index_of_char(prefix, '/', 0);
    let first = prefix.take(slash);
    let (h0, r0) = if slash < prefix.len() && (first.contains('.') || first.contains(':') || first == "localhost"@) {
        (first, prefix.skip(slash + 1))
    } else {
        ("docker.io"@, prefix)
    };
    assert("docker.io"@ != "registry-1.docker.io"@) by {
        assert("docker.io"@.len() != "registry-1.docker.io"@.len());
    }
    if h0 == "docker.io"@ || h0 == "registry-1.docker.io"@ {
        assert(spec_split_image_prefix(prefix).0 == "registry-1.docker.io"@);
        if !r0.contains('/') {
            assert(("library/"@ + r0)[7] == '/');
        }
    } else {
        assert(spec_split_image_prefix(prefix).0 == h0);
    }
}

} // verus!
