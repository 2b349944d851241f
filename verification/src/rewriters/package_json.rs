//! Pins npm coordinates in `package.json`: sets the dependency's value to the
//! branch dist-tag (the slug). Member order is preserved and the document is
//! written back with 2-space indentation.

use vstd::prelude::*;

use crate::json::{
    member_of, find_member, lemma_member_index, lemma_members_view, member, members_view, member_index, as_str,
    parse_json, render_json_pretty, json_document, json_pretty, spec_as_str, spec_member, spec_as_object,
    JsonSpec, JsonValue,
};
use crate::rewriters::{Pin, PinView, pins_view, Rewriter};
use crate::workspace::{opt_text, SbdError, Workspace, WorkspaceView};
use crate::slug::is_ascii_alnum;
use crate::text::{concat, str_eq, to_chars, has_prefix};

verus! {

broadcast use vstd::string::group_string_axioms;

/// `dependencies`, `devDependencies` and `peerDependencies`, in that order.
pub open spec fn dependency_fields() -> Seq<Seq<char>> {
    seq!["dependencies"@, "devDependencies"@, "peerDependencies"@]
}

/// The document with `pkg` under `field` set to the string `tag`, and whether
/// that changed it: only an existing entry of an existing `field` object is
/// touched, and an entry already equal to the string `tag` is left alone.
pub open spec fn set_dependency(doc: JsonSpec, field: Seq<char>, pkg: Seq<char>, tag: Seq<char>) -> (JsonSpec, bool) {
    match doc {
        JsonSpec::Object(ms) => match member_index(ms, field) {
            Some(i) => match ms[i].1 {
                JsonSpec::Object(deps) => match member_index(deps, pkg) {
                    Some(j) => if deps[j].1 == JsonSpec::Str(tag) {
                        (doc, false)
                    } else {
                        (
                            JsonSpec::Object(
                                ms.update(i, (ms[i].0, JsonSpec::Object(deps.update(j, (deps[j].0, JsonSpec::Str(tag)))))),
                            ),
                            true,
                        )
                    },
                    None => (doc, false),
                },
                _ => (doc, false),
            },
            None => (doc, false),
        },
        _ => (doc, false),
    }
}

/// The document with `pkg` pinned to `tag` across the dependency fields, and
/// whether anything changed.
pub open spec fn set_dependencies(doc: JsonSpec, pkg: Seq<char>, tag: Seq<char>) -> (JsonSpec, bool) {
    let (d1, c1) = set_dependency(doc, "dependencies"@, pkg, tag);
    let (d2, c2) = set_dependency(d1, "devDependencies"@, pkg, tag);
    let (d3, c3) = set_dependency(d2, "peerDependencies"@, pkg, tag);
    (d3, c1 || c2 || c3)
}

/// Rewriting `package.json`: `None` when the text is not JSON; otherwise the
/// new text (pretty-printed, with a final newline) when anything changed.
pub open spec fn spec_rewrite(content: Seq<char>, pkg: Seq<char>, tag: Seq<char>) -> Option<Option<Seq<char>>> {
    match json_document(content) {
        None => None,
        Some(doc) => {
            let (d, changed) = set_dependencies(doc, pkg, tag);
            if changed {
                Some(Some(json_pretty(d) + seq!['\n']))
            } else {
                Some(None)
            }
        },
    }
}

proof fn lemma_members_view_update(ms: Seq<(String, JsonValue)>, i: int, x: (String, JsonValue))
    requires
        0 <= i < ms.len(),
    ensures
        members_view(ms.update(i, x)) == members_view(ms).update(i, (x.0@, x.1@)),
{
    lemma_members_view(ms);
    lemma_members_view(ms.update(i, x));
    assert(members_view(ms.update(i, x)) =~= members_view(ms).update(i, (x.0@, x.1@)));
}

fn set_dependency_in(doc: JsonValue, field: &str, pkg: &str, tag: &str) -> (r: (JsonValue, bool))
    ensures
        (r.0@, r.1) == set_dependency(doc@, field@, pkg@, tag@),
{
    let ghost d0 = doc@;
    match doc {
        JsonValue::Object(mut ms) => {
            let ghost ms0 = ms@;
            proof {
                lemma_members_view(ms@);
                lemma_member_index(members_view(ms@), field@);
            }
            match find_member(&ms, field) {
                Some(i) => {
                    let (k, v) = ms.remove(i);
                    match v {
                        JsonValue::Object(mut deps) => {
                            proof {
                                lemma_members_view(deps@);
                                lemma_member_index(members_view(deps@), pkg@);
                                assert(members_view(ms0)[i as int] == (k@, JsonValue::Object(deps)@));
                            }
                            match find_member(&deps, pkg) {
                                Some(j) => {
                                    let same = match &deps[j].1 {
                                        JsonValue::Str(s) => str_eq(s.as_str(), tag),
                                        _ => false,
                                    };
                                    assert(members_view(deps@)[j as int] == (deps@[j as int].0@, deps@[j as int].1@));
                                    if same {
                                        ms.insert(i, (k, JsonValue::Object(deps)));
                                        assert(ms@ =~= ms0);
                                        (JsonValue::Object(ms), false)
                                    } else {
                                        let ghost deps0 = deps@;
                                        let (pk, _old) = deps.remove(j);
                                        deps.insert(j, (pk, JsonValue::Str(String::from_str(tag))));
                                        proof {
                                            assert(deps@ =~= deps0.update(j as int, deps@[j as int]));
                                            lemma_members_view_update(deps0, j as int, deps@[j as int]);
                                        }
                                        let ghost inner = JsonValue::Object(deps);
                                        ms.insert(i, (k, JsonValue::Object(deps)));
                                        proof {
                                            assert(ms@ =~= ms0.update(i as int, ms@[i as int]));
                                            lemma_members_view_update(ms0, i as int, ms@[i as int]);
                                        }
                                        (JsonValue::Object(ms), true)
                                    }
                                },
                                None => {
                                    ms.insert(i, (k, JsonValue::Object(deps)));
                                    assert(ms@ =~= ms0);
                                    (JsonValue::Object(ms), false)
                                },
                            }
                        },
                        other => {
                            proof {
                                assert(members_view(ms0)[i as int] == (k@, other@));
                            }
                            ms.insert(i, (k, other));
                            assert(ms@ =~= ms0);
                            (JsonValue::Object(ms), false)
                        },
                    }
                },
                None => (JsonValue::Object(ms), false),
            }
        },
        other => (other, false),
    }
}

/// Rewrite `pkg`'s value to `dist_tag` across dependencies/devDependencies/
/// peerDependencies. `Err` carries the JSON reader's message when the text is
/// not JSON; otherwise the new content, if anything changed.
pub fn rewrite(content: &str, pkg: &str, dist_tag: &str) -> (r: Result<Option<String>, String>)
    ensures
        match spec_rewrite(content@, pkg@, dist_tag@) {
            None => r is Err,
            Some(None) => r matches Ok(o) && o is None,
            Some(Some(t)) => r matches Ok(o) && o matches Some(s) && s@ == t,
        },
{
    let doc = match parse_json(content) {
        Ok(d) => d,
        Err(e) => return Err(e),
    };
    let (d1, c1) = set_dependency_in(doc, "dependencies", pkg, dist_tag);
    let (d2, c2) = set_dependency_in(d1, "devDependencies", pkg, dist_tag);
    let (d3, c3) = set_dependency_in(d2, "peerDependencies", pkg, dist_tag);
    if !(c1 || c2 || c3) {
        return Ok(None);
    }
    let mut out = render_json_pretty(&d3);
    crate::text::push_char(&mut out, '\n');
    Ok(Some(out))
}

pub open spec fn is_ascii_alpha(c: char) -> bool {
    ('a' <= c && c <= 'z') || ('A' <= c && c <= 'Z')
}

pub open spec fn is_tag_char(c: char) -> bool {
    is_ascii_alnum(c) || c == '-' || c == '_' || c == '.'
}

/// A dependency spec without a leading `^`, `~` or `=`.
pub open spec fn spec_core(spec: Seq<char>) -> Seq<char> {
    if spec.len() > 0 && (spec[0] == '^' || spec[0] == '~' || spec[0] == '=') {
        spec.drop_first()
    } else {
        spec
    }
}

/// A dist-tag name: a letter, then letters, digits, `-`, `_` or `.`; not
/// `latest`, not the `x`/`X` wildcards, and not a dotted `v`-prefixed version
/// (`v1.2.3`). A slug holds no `.`, so every slug that starts with a letter
/// and is not `latest`, `x` or `X` is a dist-tag.
pub open spec fn is_dist_tag(s: Seq<char>) -> bool {
    &&& s.len() > 0
    &&& is_ascii_alpha(s[0])
    &&& forall|i: int| 0 <= i < s.len() ==> is_tag_char(#[trigger] s[i])
    &&& s != "latest"@
    &&& s != "x"@
    &&& s != "X"@
    &&& !(s[0] == 'v' && s.len() > 1 && crate::rewriters::compose::is_digit(s[1]) && s.contains('.'))
}

/// A version with a pre-release part that names something (holds a letter):
/// an optional `v`, dot-separated digits, `-`, then the pre-release.
pub open spec fn is_named_prerelease(s: Seq<char>) -> bool {
    has_named_prerelease(without_v(s))
}

/// A version without a leading `v`.
pub open spec fn without_v(s: Seq<char>) -> Seq<char> {
    if s.len() > 0 && s[0] == 'v' {
        s.drop_first()
    } else {
        s
    }
}

/// Dot-separated digits, `-`, then a pre-release that holds a letter.
pub open spec fn has_named_prerelease(w: Seq<char>) -> bool {
    exists|d: int|
        0 < d < w.len() && w[d] == '-' && crate::rewriters::compose::is_numeric_dotted(#[trigger] w.take(d))
            && exists|k: int| d < k < w.len() && is_ascii_alpha(#[trigger] w[k])
}

/// Whether a `package.json` dependency spec is an in-flight branch reference:
/// a dist-tag (what `sync` writes: the branch slug) or a version whose
/// pre-release names something (`1.2.0-feat-x.7`). Released versions and
/// ranges (`^1.2.0`, `>=1 <2`), numeric pre-releases (`1.0.0-1`), wildcards,
/// `latest`, and protocol specs (`workspace:*`, `file:../x`, `npm:...`) are
/// not.
pub open spec fn spec_is_npm_branch_ref(spec: Seq<char>) -> bool {
    is_dist_tag(spec_core(spec)) || is_named_prerelease(spec_core(spec))
}

fn is_alpha(c: char) -> (r: bool)
    ensures
        r == is_ascii_alpha(c),
{
    ('a' <= c && c <= 'z') || ('A' <= c && c <= 'Z')
}

fn check_dist_tag(s: &Vec<char>) -> (r: bool)
    ensures
        r == is_dist_tag(s@),
{
    proof {
        reveal_strlit("latest");
        reveal_strlit("x");
        reveal_strlit("X");
    }
    if s.len() == 0 || !is_alpha(s[0]) {
        return false;
    }
    let mut i: usize = 0;
    let mut dotted = false;
    while i < s.len()
        invariant
            i <= s.len(),
            forall|k: int| 0 <= k < i ==> is_tag_char(#[trigger] s@[k]),
            dotted <==> exists|k: int| 0 <= k < i && #[trigger] s@[k] == '.',
        decreases s.len() - i,
    {
        let c = s[i];
        if !(crate::slug::is_ascii_alphanumeric(c) || c == '-' || c == '_' || c == '.') {
            return false;
        }
        if c == '.' {
            dotted = true;
        }
        i = i + 1;
    }
    assert(dotted == s@.contains('.'));
    let t = crate::text::from_chars(s);
    if str_eq(t.as_str(), "latest") || str_eq(t.as_str(), "x") || str_eq(t.as_str(), "X") {
        return false;
    }
    !(s[0] == 'v' && s.len() > 1 && '0' <= s[1] && s[1] <= '9' && dotted)
}

fn check_named_prerelease(s: &Vec<char>) -> (r: bool)
    ensures
        r == is_named_prerelease(s@),
{
    let start: usize = if s.len() > 0 && s[0] == 'v' {
        1
    } else {
        0
    };
    let w = crate::text::chars_of_range(s, start, s.len());
    assert(w@ == without_v(s@));
    // the first `-` ends the version core; an earlier `-` would be in it
    let mut d: usize = 0;
    while d < w.len() && w[d] != '-'
        invariant
            d <= w.len(),
            forall|k: int| 0 <= k < d ==> w@[k] != '-',
        decreases w.len() - d,
    {
        d = d + 1;
    }
    if d == 0 || d >= w.len() {
        proof {
            assert forall|e: int| 0 < e < w@.len() && w@[e] == '-' implies !crate::rewriters::compose::is_numeric_dotted(
                #[trigger] w@.take(e),
            ) by {
                assert(e > d || d == 0);
                if d == 0 {
                    assert(w@.take(e)[0] == '-');
                } else {
                    assert(false);
                }
            }
        }
        return false;
    }
    let core = crate::text::string_of_range(&w, 0, d);
    assert(core@ == w@.take(d as int));
    let numeric = !crate::rewriters::compose::is_branch_tag(core.as_str()) && w[0] != 'v';
    proof {
        if w@[0] != 'v' {
            assert(core@.len() > 0 && core@[0] != 'v');
        }
    }
    let mut named = false;
    let mut k = d + 1;
    while k < w.len()
        invariant
            d < k <= w.len(),
            named == exists|j: int| d < j < k && is_ascii_alpha(#[trigger] w@[j]),
        decreases w.len() - k,
    {
        if is_alpha(w[k]) {
            named = true;
        }
        k = k + 1;
    }
    proof {
        assert forall|e: int| 0 < e < w@.len() && w@[e] == '-' && e != d implies !crate::rewriters::compose::is_numeric_dotted(
            #[trigger] w@.take(e),
        ) by {
            assert(e > d);
            assert(w@.take(e)[d as int] == '-');
        }
        assert(numeric == crate::rewriters::compose::is_numeric_dotted(w@.take(d as int)));
        if numeric && named {
            let j = choose|j: int| d < j < k && is_ascii_alpha(#[trigger] w@[j]);
            assert(0 < d < w@.len() && w@[d as int] == '-' && crate::rewriters::compose::is_numeric_dotted(
                w@.take(d as int),
            ) && exists|k2: int| d < k2 < w@.len() && is_ascii_alpha(#[trigger] w@[k2]));
            assert(is_named_prerelease(s@));
        }
        if is_named_prerelease(s@) {
            let e = choose|e: int|
                0 < e < w@.len() && w@[e] == '-' && crate::rewriters::compose::is_numeric_dotted(#[trigger] w@.take(e))
                    && exists|k2: int| e < k2 < w@.len() && is_ascii_alpha(#[trigger] w@[k2]);
            assert(e == d);
        }
    }
    numeric && named
}

/// Whether a `package.json` dependency spec is an in-flight branch reference.
pub fn is_npm_branch_ref(spec: &str) -> (r: bool)
    ensures
        r == spec_is_npm_branch_ref(spec@),
{
    let s = to_chars(spec);
    let core = if s.len() > 0 && (s[0] == '^' || s[0] == '~' || s[0] == '=') {
        crate::text::chars_of_range(&s, 1, s.len())
    } else {
        s
    };
    check_dist_tag(&core) || check_named_prerelease(&core)
}

/// The `package.json` rewriter: pins npm coordinates.
#[derive(Clone, Copy)]
pub struct PackageJson;

/// The branch pin of `pkg` under `field`, if its spec is a branch reference.
pub open spec fn dependency_pin(doc: JsonSpec, field: Seq<char>, pkg: Seq<char>) -> Option<PinView> {
    match spec_member(doc, field) {
        Some(d) => match spec_as_object(d) {
            Some(deps) => match crate::json::member_of(deps, pkg) {
                Some(v) => match spec_as_str(v) {
                    Some(spec) => if spec_is_npm_branch_ref(spec) {
                        Some(PinView { file: "package.json"@, line: None, reference: pkg + seq!['@'] + spec })
                    } else {
                        None
                    },
                    None => None,
                },
                None => None,
            },
            None => None,
        },
        None => None,
    }
}

pub open spec fn opt_seq<T>(o: Option<T>) -> Seq<T> {
    match o {
        Some(x) => seq![x],
        None => seq![],
    }
}

/// The branch pins of `pkg` in a `package.json` document, field by field.
pub open spec fn spec_package_pins(doc: JsonSpec, pkg: Seq<char>) -> Seq<PinView> {
    opt_seq(dependency_pin(doc, "dependencies"@, pkg)) + opt_seq(dependency_pin(doc, "devDependencies"@, pkg))
        + opt_seq(dependency_pin(doc, "peerDependencies"@, pkg))
}

fn find_dependency_pin(doc: &JsonValue, field: &str, pkg: &str) -> (r: Option<Pin>)
    ensures
        match dependency_pin(doc@, field@, pkg@) {
            Some(p) => r matches Some(pin) && pin@ == p,
            None => r is None,
        },
{
    let deps = match member(doc, field) {
        Some(d) => d,
        None => return None,
    };
    let members = match deps {
        JsonValue::Object(m) => m,
        _ => return None,
    };
    proof {
        crate::json::lemma_members_view(members@);
        lemma_member_index(members_view(members@), pkg@);
    }
    let v = match find_member(members, pkg) {
        Some(i) => {
            assert(members_view(members@)[i as int] == (members@[i as int].0@, members@[i as int].1@));
            &members[i].1
        },
        None => return None,
    };
    let spec = match as_str(v) {
        Some(s) => s,
        None => return None,
    };
    if is_npm_branch_ref(spec) {
        proof {
            reveal_strlit("@");
            assert("@"@ =~= seq!['@']);
        }
        let reference = concat(&concat(pkg, "@"), spec);
        Some(Pin { file: String::from_str("package.json"), line: None, reference })
    } else {
        None
    }
}

impl Rewriter for PackageJson {
    open spec fn spec_kind(&self) -> Seq<char> {
        "npm"@
    }

    open spec fn spec_rewrite(&self, ws: WorkspaceView, target: Seq<char>, slug: Seq<char>) -> Option<(WorkspaceView, bool)> {
        match ws.package_json {
            None => Some((ws, false)),
            Some(text) => match spec_rewrite(text, target, slug) {
                None => None,
                Some(None) => Some((ws, false)),
                Some(Some(new)) => Some((WorkspaceView { package_json: Some(new), ..ws }, true)),
            },
        }
    }

    open spec fn spec_find_branch_pin(&self, ws: WorkspaceView, target: Seq<char>) -> Option<Seq<PinView>> {
        match ws.package_json {
            None => Some(seq![]),
            Some(text) => match json_document(text) {
                None => None,
                Some(doc) => Some(spec_package_pins(doc, target)),
            },
        }
    }

    fn kind(&self) -> (r: &'static str) {
        "npm"
    }

    fn rewrite(&self, ws: &mut Workspace, target: &str, slug: &str) -> (r: Result<bool, SbdError>)
        ensures
            r matches Err(SbdError::Manifest { file, .. }) ==> file@ == "package.json"@,
    {
        let result = match &ws.package_json {
            None => return Ok(false),
            Some(text) => rewrite(text.as_str(), target, slug),
        };
        match result {
            Err(detail) => Err(SbdError::Manifest { file: String::from_str("package.json"), detail }),
            Ok(None) => Ok(false),
            Ok(Some(new)) => {
                ws.package_json = Some(new);
                Ok(true)
            },
        }
    }

    fn find_branch_pin(&self, ws: &Workspace, target: &str) -> (r: Result<Vec<Pin>, SbdError>)
        ensures
            r matches Err(SbdError::Manifest { file, .. }) ==> file@ == "package.json"@,
    {
        let text = match &ws.package_json {
            None => return Ok(Vec::new()),
            Some(t) => t,
        };
        let doc = match parse_json(text.as_str()) {
            Ok(d) => d,
            Err(detail) => return Err(SbdError::Manifest { file: String::from_str("package.json"), detail }),
        };
        let mut pins: Vec<Pin> = Vec::new();
        let ghost doc_v = doc@;
        match find_dependency_pin(&doc, "dependencies", target) {
            Some(p) => pins.push(p),
            None => {},
        }
        assert(pins_view(pins@) =~= opt_seq(dependency_pin(doc_v, "dependencies"@, target@)));
        let ghost p1 = pins_view(pins@);
        match find_dependency_pin(&doc, "devDependencies", target) {
            Some(p) => pins.push(p),
            None => {},
        }
        assert(pins_view(pins@) =~= p1 + opt_seq(dependency_pin(doc_v, "devDependencies"@, target@)));
        let ghost p2 = pins_view(pins@);
        match find_dependency_pin(&doc, "peerDependencies", target) {
            Some(p) => pins.push(p),
            None => {},
        }
        assert(pins_view(pins@) =~= p2 + opt_seq(dependency_pin(doc_v, "peerDependencies"@, target@)));
        Ok(pins)
    }
}

/// Replacing a member's value keeps every member's position.
proof fn lemma_member_index_update(ms: Seq<(Seq<char>, JsonSpec)>, i: int, v: JsonSpec, key: Seq<char>)
    requires
        0 <= i < ms.len(),
    ensures
        member_index(ms.update(i, (ms[i].0, v)), key) == member_index(ms, key),
    decreases ms.len(),
{
    let ms2 = ms.update(i, (ms[i].0, v));
    if ms.len() > 0 && i > 0 {
        lemma_member_index_update(ms.drop_first(), i - 1, v, key);
        assert(ms2.drop_first() =~= ms.drop_first().update(i - 1, (ms.drop_first()[i - 1].0, v)));
    } else if ms.len() > 0 {
        assert(ms2.drop_first() =~= ms.drop_first());
    }
}

/// The member named `key` of `ms` with the member at `i` given the value `v`.
proof fn lemma_member_of_update(ms: Seq<(Seq<char>, JsonSpec)>, i: int, v: JsonSpec, key: Seq<char>)
    requires
        0 <= i < ms.len(),
        member_index(ms, ms[i].0) == Some(i),
    ensures
        member_of(ms.update(i, (ms[i].0, v)), key) == if key == ms[i].0 {
            Some(v)
        } else {
            member_of(ms, key)
        },
{
    let ms2 = ms.update(i, (ms[i].0, v));
    lemma_member_index_update(ms, i, v, key);
    lemma_member_index(ms, key);
    lemma_member_index(ms2, key);
}

/// The value `doc` lists for `pkg` under the dependency object `field`.
pub open spec fn dependency_value(doc: JsonSpec, field: Seq<char>, pkg: Seq<char>) -> Option<JsonSpec> {
    match spec_member(doc, field) {
        Some(JsonSpec::Object(deps)) => member_of(deps, pkg),
        _ => None,
    }
}

/// What pinning one field does: the field's entry for `pkg`, where there is
/// one, becomes the string `tag`; every other field is unchanged; and pinning
/// the result again changes nothing.
proof fn lemma_set_dependency(doc: JsonSpec, field: Seq<char>, pkg: Seq<char>, tag: Seq<char>)
    ensures
        ({
            let d = set_dependency(doc, field, pkg, tag).0;
            &&& forall|other: Seq<char>| other != field ==> #[trigger] spec_member(d, other) == spec_member(doc, other)
            &&& dependency_value(doc, field, pkg) is Some ==> dependency_value(d, field, pkg) == Some(JsonSpec::Str(tag))
            &&& dependency_value(doc, field, pkg) is None ==> dependency_value(d, field, pkg) is None
        }),
{
    let d = set_dependency(doc, field, pkg, tag).0;
    if let JsonSpec::Object(ms) = doc {
        lemma_member_index(ms, field);
        if let Some(i) = member_index(ms, field) {
            if let JsonSpec::Object(deps) = ms[i].1 {
                lemma_member_index(deps, pkg);
                if let Some(j) = member_index(deps, pkg) {
                    if deps[j].1 != JsonSpec::Str(tag) {
                        let deps2 = deps.update(j, (deps[j].0, JsonSpec::Str(tag)));
                        let ms2 = ms.update(i, (ms[i].0, JsonSpec::Object(deps2)));
                        assert(d == JsonSpec::Object(ms2));
                        lemma_member_index_update(ms, i, JsonSpec::Object(deps2), field);
                        lemma_member_index_update(deps, j, JsonSpec::Str(tag), pkg);
                        lemma_member_of_update(deps, j, JsonSpec::Str(tag), pkg);
                        assert forall|other: Seq<char>| other != field implies #[trigger] spec_member(d, other)
                            == spec_member(doc, other) by {
                            lemma_member_of_update(ms, i, JsonSpec::Object(deps2), other);
                        }
                        lemma_member_of_update(ms, i, JsonSpec::Object(deps2), field);
                    }
                }
            }
        }
    }
}

/// Pinning `package.json` is stable: in the pinned document every dependency
/// field that lists `pkg` lists it at exactly `tag`, and pinning it again
/// changes nothing.
pub proof fn lemma_pinning_is_stable(doc: JsonSpec, pkg: Seq<char>, tag: Seq<char>)
    ensures
        ({
            let d = set_dependencies(doc, pkg, tag).0;
            &&& set_dependencies(d, pkg, tag) == (d, false)
            &&& forall|k: int|
                0 <= k < 3 ==> (dependency_value(doc, #[trigger] dependency_fields()[k], pkg) is Some
                    ==> dependency_value(d, dependency_fields()[k], pkg) == Some(JsonSpec::Str(tag)))
        }),
{
    reveal_strlit("dependencies");
    reveal_strlit("devDependencies");
    reveal_strlit("peerDependencies");
    let f1 = "dependencies"@;
    let f2 = "devDependencies"@;
    let f3 = "peerDependencies"@;
    assert(f1 != f2 && f1 != f3 && f2 != f3) by {
        assert(f1.len() != f2.len() && f1.len() != f3.len());
        assert(f2[0] != f3[0]);
    }
    let d1 = set_dependency(doc, f1, pkg, tag).0;
    let d2 = set_dependency(d1, f2, pkg, tag).0;
    let d3 = set_dependency(d2, f3, pkg, tag).0;
    lemma_set_dependency(doc, f1, pkg, tag);
    lemma_set_dependency(d1, f2, pkg, tag);
    lemma_set_dependency(d2, f3, pkg, tag);
    // pinning the result again: each field is already at `tag`
    assert(spec_member(d3, f1) == spec_member(d1, f1));
    assert(spec_member(d3, f2) == spec_member(d2, f2));
    assert(spec_member(d2, f1) == spec_member(d1, f1));
    lemma_set_dependency_fixed(d3, f1, pkg, tag);
    lemma_set_dependency_fixed(d3, f2, pkg, tag);
    lemma_set_dependency_fixed(d3, f3, pkg, tag);
    assert(dependency_fields() == seq![f1, f2, f3]);
}

/// `verify` catches what pinning writes into a `package.json` document: when
/// `tag` is a branch reference, every dependency field that lists `pkg`
/// yields the pin `pkg@tag` in the pinned document.
pub proof fn lemma_pinned_package_is_caught(doc: JsonSpec, pkg: Seq<char>, tag: Seq<char>)
    requires
        spec_is_npm_branch_ref(tag),
    ensures
        forall|k: int|
            0 <= k < 3 ==> (dependency_value(doc, #[trigger] dependency_fields()[k], pkg) is Some ==> dependency_pin(
                set_dependencies(doc, pkg, tag).0,
                dependency_fields()[k],
                pkg,
            ) == Some(PinView { file: "package.json"@, line: None, reference: pkg + seq!['@'] + tag })),
{
    lemma_pinning_is_stable(doc, pkg, tag);
    let d = set_dependencies(doc, pkg, tag).0;
    assert forall|k: int|
        0 <= k < 3 && dependency_value(doc, #[trigger] dependency_fields()[k], pkg) is Some implies dependency_pin(
        d,
        dependency_fields()[k],
        pkg,
    ) == Some(PinView { file: "package.json"@, line: None, reference: pkg + seq!['@'] + tag }) by {
        let f = dependency_fields()[k];
        assert(dependency_value(d, f, pkg) == Some(JsonSpec::Str(tag)));
    }
}

/// `verify` catches every slug `sync` writes into `package.json` as a
/// dist-tag: the slug of any branch that starts with a letter, other than
/// `latest` and the `x`/`X` wildcards, is a branch reference.
pub proof fn lemma_slug_is_branch_ref(branch: Seq<char>)
    requires
        branch.len() > 0,
        is_ascii_alpha(crate::slug::spec_sanitize(branch)[0]),
        crate::slug::spec_sanitize(branch) != "latest"@,
        crate::slug::spec_sanitize(branch) != "x"@,
        crate::slug::spec_sanitize(branch) != "X"@,
    ensures
        spec_is_npm_branch_ref(crate::slug::spec_sanitize(branch)),
{
    let s = crate::slug::spec_sanitize(branch);
    crate::slug::lemma_sanitize_shape(branch);
    assert(spec_core(s) == s);
    assert forall|i: int| 0 <= i < s.len() implies is_tag_char(#[trigger] s[i]) by {
        assert(crate::slug::is_ascii_alnum(s[i]) || s[i] == '-');
    }
    assert(!s.contains('.')) by {
        assert forall|i: int| 0 <= i < s.len() implies s[i] != '.' by {
            assert(crate::slug::is_ascii_alnum(s[i]) || s[i] == '-');
        }
    }
    assert(is_dist_tag(s));
}

/// A field whose entry for `pkg` is already the string `tag`, or that has no
/// such entry, is left as it is.
proof fn lemma_set_dependency_fixed(doc: JsonSpec, field: Seq<char>, pkg: Seq<char>, tag: Seq<char>)
    requires
        dependency_value(doc, field, pkg) is Some ==> dependency_value(doc, field, pkg) == Some(JsonSpec::Str(tag)),
    ensures
        set_dependency(doc, field, pkg, tag) == (doc, false),
{
    if let JsonSpec::Object(ms) = doc {
        lemma_member_index(ms, field);
        if let Some(i) = member_index(ms, field) {
            if let JsonSpec::Object(deps) = ms[i].1 {
                lemma_member_index(deps, pkg);
            }
        }
    }
}

} // verus!
