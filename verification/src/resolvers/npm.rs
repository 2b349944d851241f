//! npm packages. A branch build publishes a pre-release under a dist-tag named
//! for the branch slug; resolution asks the registry which version that
//! dist-tag points at. Registry and auth come from `.npmrc` (user, then
//! project), so this works against npmjs.org, GitHub Packages, or any private
//! npm registry.

use vstd::prelude::*;

use crate::json::{as_str, member, parse_json, json_document, spec_as_str, spec_member};
use crate::resolvers::Resolver;
use crate::rewriters::compose::{lines_of, lines_view, text_lines};
use crate::text::{
    chars_of_range, concat, find, find_from, from_chars, has_prefix, has_suffix, index_of_char,
    lemma_find_from, lemma_index_of_char, position_of, push_all, push_char, spec_trim, str_eq,
    starts_with, ends_with, to_chars, trim, trim_start_all, trim_start_matches, decimal, spec_decimal, seq_lt,
};

verus! {

broadcast use vstd::string::group_string_axioms;

#[derive(Clone, Copy)]
pub struct Npm;

impl Resolver for Npm {
    open spec fn spec_key(&self) -> Seq<char> {
        "npm"@
    }

    open spec fn spec_handles(&self, key: Seq<char>) -> bool {
        key == "npm"@
    }

    open spec fn spec_kind(&self) -> Seq<char> {
        "npm"@
    }

    fn key(&self) -> (r: &'static str) {
        "npm"
    }

    fn handles(&self, key: &str) -> (r: bool) {
        str_eq(key, self.key())
    }

    fn kind(&self) -> (r: &'static str) {
        "npm"
    }
}

/// An environment: variable names with their values.
pub type Env = Vec<(String, String)>;

pub open spec fn env_view(env: Seq<(String, String)>) -> Seq<(Seq<char>, Seq<char>)> {
    env.map_values(|e: (String, String)| (e.0@, e.1@))
}

/// The value of the first entry named `key`.
pub open spec fn lookup(entries: Seq<(Seq<char>, Seq<char>)>, key: Seq<char>) -> Option<Seq<char>>
    decreases entries.len(),
{
    if entries.len() == 0 {
        None
    } else if entries[0].0 == key {
        Some(entries[0].1)
    } else {
        lookup(entries.drop_first(), key)
    }
}

/// The value of the first entry named `key`.
pub fn lookup_exec(entries: &Vec<(String, String)>, key: &str) -> (r: Option<String>)
    ensures
        match lookup(env_view(entries@), key@) {
            Some(v) => r matches Some(s) && s@ == v,
            None => r is None,
        },
{
    let ghost ev = env_view(entries@);
    let mut i: usize = 0;
    assert(ev.skip(0) == ev);
    while i < entries.len()
        invariant
            ev == env_view(entries@),
            i <= entries.len(),
            lookup(ev, key@) == lookup(ev.skip(i as int), key@),
        decreases entries.len() - i,
    {
        assert(ev.skip(i as int).drop_first() == ev.skip(i + 1));
        assert(ev.skip(i as int)[0] == (entries@[i as int].0@, entries@[i as int].1@));
        if str_eq(entries[i].0.as_str(), key) {
            return Some(entries[i].1.clone());
        }
        i = i + 1;
    }
    None
}

/// `${VAR}` references expanded from `env` (an unset variable expands to
/// nothing, as npm does); a `${` with no closing `}` is kept as is.
pub open spec fn spec_expand_env(value: Seq<char>, env: Seq<(Seq<char>, Seq<char>)>) -> Seq<char>
    decreases value.len(),
{
    match find_from(value, "${"@, 0) {
        None => value,
        Some(start) => {
            let after = value.skip(start + 2);
            let end = index_of_char(after, '}', 0);
            proof {
                reveal_strlit("${");
                lemma_find_from(value, "${"@, 0);
                lemma_index_of_char(after, '}', 0);
            }
            if end < after.len() {
                value.take(start) + match lookup(env, after.take(end)) {
                    Some(v) => v,
                    None => Seq::empty(),
                } + spec_expand_env(after.skip(end + 1), env)
            } else {
                value
            }
        },
    }
}

/// Expand `${VAR}` references from `env` (unset expands to nothing).
pub fn expand_env(value: &str, env: &Env) -> (r: String)
    ensures
        r@ == spec_expand_env(value@, env_view(env@)),
{
    let v = to_chars(value);
    let open = to_chars("${");
    proof {
        reveal_strlit("${");
    }
    let mut out = String::new();
    let mut rest_start: usize = 0;
    assert(v@.skip(0) == v@);
    loop
        invariant_except_break
            open@ == "${"@,
            open@.len() == 2,
            rest_start <= v.len(),
            spec_expand_env(value@, env_view(env@)) == out@ + spec_expand_env(v@.skip(rest_start as int), env_view(env@)),
            v@ == value@,
        ensures
            spec_expand_env(value@, env_view(env@)) == out@,
        decreases v.len() - rest_start,
    {
        let ghost rest = v@.skip(rest_start as int);
        let start = match find(&v, &open, rest_start) {
            Some(s) => s,
            None => {
                proof {
                    crate::text::lemma_find_shift(v@, open@, rest_start as int, rest_start as int);
                }
                let tail = chars_of_range(&v, rest_start, v.len());
                push_all(&mut out, &tail);
                assert(tail@ == rest);
                break;
            },
        };
        proof {
            crate::text::lemma_find_shift(v@, open@, rest_start as int, rest_start as int);
        }
        let end = position_of(&v, '}', start + 2);
        proof {
            let k = start - rest_start;
            let after = rest.skip(k + 2);
            assert(after =~= v@.skip(start + 2));
            lemma_index_of_char(after, '}', 0);
            lemma_index_of_char(v@, '}', start + 2);
            assert(index_of_char(after, '}', 0) == end - start - 2) by {
                lemma_index_shift(v@, '}', start + 2, start + 2);
            }
        }
        if end >= v.len() {
            let tail = chars_of_range(&v, rest_start, v.len());
            push_all(&mut out, &tail);
            assert(tail@ == rest);
            break;
        }
        let before = chars_of_range(&v, rest_start, start);
        push_all(&mut out, &before);
        let name = from_chars(&chars_of_range(&v, start + 2, end));
        match lookup_exec(env, name.as_str()) {
            Some(val) => out.append(val.as_str()),
            None => {},
        }
        proof {
            let k = start - rest_start;
            let after = rest.skip(k + 2);
            assert(before@ == rest.take(k));
            assert(name@ == after.take(end - start - 2));
            assert(after.skip(end - start - 2 + 1) == v@.skip(end + 1));
            assert(Seq::<char>::empty() + Seq::<char>::empty() == Seq::<char>::empty());
        }
        rest_start = end + 1;
    }
    out
}

proof fn lemma_index_shift(s: Seq<char>, c: char, base: int, i: int)
    requires
        0 <= base <= i <= s.len(),
    ensures
        index_of_char(s.skip(base), c, i - base) == index_of_char(s, c, i) - base,
    decreases s.len() - i,
{
    if i < s.len() && s[i] != c {
        lemma_index_shift(s, c, base, i + 1);
    }
}

/// Insert `key = value`: a key already present takes the new value in its
/// place; a new key is appended.
pub open spec fn rc_insert(entries: Seq<(Seq<char>, Seq<char>)>, key: Seq<char>, value: Seq<char>) -> Seq<(Seq<char>, Seq<char>)> {
    match entry_index(entries, key) {
        Some(i) => entries.update(i, (key, value)),
        None => entries.push((key, value)),
    }
}

/// The index of the first entry named `key`.
pub open spec fn entry_index(entries: Seq<(Seq<char>, Seq<char>)>, key: Seq<char>) -> Option<int>
    decreases entries.len(),
{
    if entries.len() == 0 {
        None
    } else if entries[0].0 == key {
        Some(0)
    } else {
        match entry_index(entries.drop_first(), key) {
            Some(i) => Some(i + 1),
            None => None,
        }
    }
}

proof fn lemma_entry_index(entries: Seq<(Seq<char>, Seq<char>)>, key: Seq<char>)
    ensures
        match entry_index(entries, key) {
            Some(i) => 0 <= i < entries.len() && entries[i].0 == key && forall|j: int|
                0 <= j < i ==> #[trigger] entries[j].0 != key,
            None => forall|j: int| 0 <= j < entries.len() ==> #[trigger] entries[j].0 != key,
        },
    decreases entries.len(),
{
    if entries.len() > 0 {
        lemma_entry_index(entries.drop_first(), key);
        assert forall|j: int| 1 <= j < entries.len() implies #[trigger] entries[j] == entries.drop_first()[j - 1] by {}
    }
}

/// One `.npmrc` line applied: blank lines and `#`/`;` comments are skipped;
/// `key = value` sets the trimmed key to the trimmed, expanded value; any
/// other line is ignored.
pub open spec fn merge_line(entries: Seq<(Seq<char>, Seq<char>)>, line: Seq<char>, env: Seq<(Seq<char>, Seq<char>)>) -> Seq<(Seq<char>, Seq<char>)> {
    let l = spec_trim(line);
    if l.len() == 0 || l[0] == '#' || l[0] == ';' {
        entries
    } else {
        let eq = index_of_char(l, '=', 0);
        if eq < l.len() {
            rc_insert(entries, spec_trim(l.take(eq)), spec_expand_env(spec_trim(l.skip(eq + 1)), env))
        } else {
            entries
        }
    }
}

/// The lines of an `.npmrc` applied in order.
pub open spec fn merge_lines(entries: Seq<(Seq<char>, Seq<char>)>, lines: Seq<Seq<char>>, env: Seq<(Seq<char>, Seq<char>)>) -> Seq<(Seq<char>, Seq<char>)>
    decreases lines.len(),
{
    if lines.len() == 0 {
        entries
    } else {
        merge_line(merge_lines(entries, lines.drop_last(), env), lines.last(), env)
    }
}

/// Set `key` to `value` in an association list: a key already present takes
/// the new value in its place; a new key is appended.
pub fn assoc_insert(entries: &mut Vec<(String, String)>, key: String, value: String)
    ensures
        env_view(final(entries)@) == rc_insert(env_view(old(entries)@), key@, value@),
{
    let ghost e0 = env_view(entries@);
    proof {
        lemma_entry_index(e0, key@);
    }
    let mut i: usize = 0;
    while i < entries.len()
        invariant
            e0 == env_view(entries@),
            e0 == env_view(old(entries)@),
            i <= entries.len(),
            forall|j: int| 0 <= j < i ==> #[trigger] e0[j].0 != key@,
            match entry_index(e0, key@) {
                Some(k) => i <= k < e0.len() && e0[k].0 == key@,
                None => true,
            },
        decreases entries.len() - i,
    {
        assert(e0[i as int] == (entries@[i as int].0@, entries@[i as int].1@));
        if str_eq(entries[i].0.as_str(), key.as_str()) {
            proof {
                lemma_entry_index(e0, key@);
                if entry_index(e0, key@) is None {
                    assert(e0[i as int].0 != key@);
                } else {
                    let k = entry_index(e0, key@)->0;
                    if i < k {
                        assert(e0[i as int].0 != key@);
                    }
                }
                assert(entry_index(e0, key@) == Some(i as int));
            }
            entries.set(i, (key, value));
            assert(env_view(entries@) =~= e0.update(i as int, (key@, value@)));
            return;
        }
        i = i + 1;
    }
    entries.push((key, value));
    assert(env_view(entries@) =~= e0.push((key@, value@)));
}

/// A minimal `.npmrc` view: scope-to-registry mappings and per-registry auth
/// tokens, with `${VAR}` expansion (as npm itself does).
pub struct Npmrc {
    entries: Vec<(String, String)>,
}

impl Npmrc {
    /// The settings, in the order they were first set.
    pub closed spec fn spec_entries(&self) -> Seq<(Seq<char>, Seq<char>)> {
        env_view(self.entries@)
    }

    /// No settings.
    pub fn new() -> (r: Npmrc)
        ensures
            r.spec_entries() == Seq::<(Seq<char>, Seq<char>)>::empty(),
    {
        let r = Npmrc { entries: Vec::new() };
        assert(r.spec_entries() =~= Seq::<(Seq<char>, Seq<char>)>::empty());
        r
    }

    fn insert(&mut self, key: String, value: String)
        ensures
            final(self).spec_entries() == rc_insert(old(self).spec_entries(), key@, value@),
    {
        assoc_insert(&mut self.entries, key, value);
    }

    /// Apply the lines of an `.npmrc` text, expanding `${VAR}` from `env`.
    /// Later settings win over earlier ones.
    pub fn merge_text(&mut self, text: &str, env: &Env)
        ensures
            final(self).spec_entries() == merge_lines(old(self).spec_entries(), lines_of(text@), env_view(env@)),
    {
        let lines = text_lines(text);
        let ghost e0 = self.spec_entries();
        let ghost all = lines_view(lines@);
        let mut k: usize = 0;
        while k < lines.len()
            invariant
                k <= lines.len(),
                all == lines_view(lines@),
                self.spec_entries() == merge_lines(e0, all.take(k as int), env_view(env@)),
            decreases lines.len() - k,
        {
            proof {
                assert(all.take(k + 1).drop_last() =~= all.take(k as int));
                assert(all.take(k + 1).last() == lines@[k as int]@);
            }
            self.merge_one(&lines[k], env);
            k = k + 1;
        }
        assert(all.take(lines.len() as int) == all);
    }

    fn merge_one(&mut self, line: &Vec<char>, env: &Env)
        ensures
            final(self).spec_entries() == merge_line(old(self).spec_entries(), line@, env_view(env@)),
    {
        let l = trim(line);
        if l.len() == 0 || l[0] == '#' || l[0] == ';' {
            return;
        }
        let eq = position_of(&l, '=', 0);
        if eq >= l.len() {
            return;
        }
        let key = from_chars(&trim(&chars_of_range(&l, 0, eq)));
        let raw = from_chars(&trim(&chars_of_range(&l, eq + 1, l.len())));
        let value = expand_env(raw.as_str(), env);
        proof {
            assert(l@.take(eq as int) == l@.subrange(0, eq as int));
            assert(l@.skip(eq + 1) == l@.subrange(eq + 1, l@.len() as int));
        }
        self.insert(key, value);
    }

    /// An `.npmrc` read from its text, expanding `${VAR}` from `env`.
    pub fn parse(text: &str, env: &Env) -> (r: Npmrc)
        ensures
            r.spec_entries() == merge_lines(Seq::empty(), lines_of(text@), env_view(env@)),
    {
        let mut rc = Npmrc::new();
        rc.merge_text(text, env);
        rc
    }

    /// The registry a package resolves against: a scoped `@scope:registry`
    /// setting, else the default `registry`, else npmjs.org.
    pub open spec fn spec_registry_for(&self, name: Seq<char>) -> Seq<char> {
        let default = match lookup(self.spec_entries(), "registry"@) {
            Some(r) => r,
            None => "https://registry.npmjs.org"@,
        };
        match spec_scope_of(name) {
            Some(scope) => match lookup(self.spec_entries(), scope + ":registry"@) {
                Some(r) => r,
                None => default,
            },
            None => default,
        }
    }

    /// The registry a package resolves against.
    pub fn registry_for(&self, name: &str) -> (r: String)
        ensures
            r@ == self.spec_registry_for(name@),
    {
        match scope_of(name) {
            Some(scope) => {
                let key = concat(scope.as_str(), ":registry");
                match lookup_exec(&self.entries, key.as_str()) {
                    Some(r) => return r,
                    None => {},
                }
            },
            None => {},
        }
        match lookup_exec(&self.entries, "registry") {
            Some(r) => r,
            None => String::from_str("https://registry.npmjs.org"),
        }
    }

    /// The `_authToken` configured for a registry's host, if any: of the
    /// settings named `//<host>...:_authToken`, the one whose name sorts first.
    pub open spec fn spec_token_for(&self, registry: Seq<char>) -> Option<Seq<char>> {
        match least_token_entry(self.spec_entries(), spec_registry_host(registry)) {
            Some(e) => Some(e.1),
            None => None,
        }
    }

    /// The `_authToken` configured for a registry's host, if any.
    pub fn token_for(&self, registry: &str) -> (r: Option<String>)
        ensures
            match self.spec_token_for(registry@) {
                Some(t) => r matches Some(s) && s@ == t,
                None => r is None,
            },
    {
        let host = registry_host(registry);
        let prefix = concat("//", host.as_str());
        let ghost ev = self.spec_entries();
        let mut best: Option<usize> = None;
        let mut i: usize = 0;
        while i < self.entries.len()
            invariant
                ev == env_view(self.entries@),
                i <= self.entries.len(),
                prefix@ == "//"@ + spec_registry_host(registry@),
                match least_token_entry(ev.take(i as int), spec_registry_host(registry@)) {
                    Some(e) => best matches Some(b) && b < i && ev[b as int] == e,
                    None => best is None,
                },
            decreases self.entries.len() - i,
        {
            proof {
                assert(ev.take(i + 1).drop_last() =~= ev.take(i as int));
                assert(ev.take(i + 1).last() == ev[i as int]);
                assert(ev[i as int] == (self.entries@[i as int].0@, self.entries@[i as int].1@));
            }
            let k = to_chars(self.entries[i].0.as_str());
            let pfx = to_chars(prefix.as_str());
            let n = pfx.len();
            proof {
                reveal_strlit("//");
                assert(pfx@.len() == spec_registry_host(registry@).len() + 2);
                assert(k@ == ev[i as int].0);
            }
            let host_ends = n >= k.len() || k[n] == '/' || k[n] == ':';
            assert(host_ends == host_ends_at(k@, spec_registry_host(registry@).len() + 2int));
            if starts_with(&k, &pfx) && ends_with(&k, &to_chars(":_authToken")) && host_ends {
                best = match best {
                    None => Some(i),
                    Some(b) => if key_less(self.entries[i].0.as_str(), self.entries[b].0.as_str()) {
                        Some(i)
                    } else {
                        Some(b)
                    },
                };
            }
            i = i + 1;
        }
        assert(ev.take(self.entries.len() as int) == ev);
        match best {
            Some(b) => Some(self.entries[b].1.clone()),
            None => None,
        }
    }
}

/// Whether `a` sorts before `b`.
pub fn key_less(a: &str, b: &str) -> (r: bool)
    ensures
        r == seq_lt(a@, b@),
{
    let x = to_chars(a);
    let y = to_chars(b);
    let mut i: usize = 0;
    assert(x@.skip(0) =~= x@);
    assert(y@.skip(0) =~= y@);
    while i < x.len() && i < y.len() && x[i] == y[i]
        invariant
            i <= x.len(),
            i <= y.len(),
            seq_lt(x@, y@) == seq_lt(x@.skip(i as int), y@.skip(i as int)),
        decreases x.len() - i,
    {
        assert(x@.skip(i as int).drop_first() =~= x@.skip(i + 1));
        assert(y@.skip(i as int).drop_first() =~= y@.skip(i + 1));
        i = i + 1;
    }
    if i == x.len() {
        i < y.len()
    } else if i == y.len() {
        false
    } else {
        x[i] < y[i]
    }
}

/// Whether a setting names the auth token of `host`: `//<host>`, where the
/// host ends (the name goes on with `/` or `:`), and `:_authToken` at the end.
/// A longer host that merely starts with `host` is another host.
pub open spec fn is_token_key(key: Seq<char>, host: Seq<char>) -> bool {
    &&& has_prefix(key, "//"@ + host)
    &&& has_suffix(key, ":_authToken"@)
    &&& host_ends_at(key, host.len() + 2int)
}

/// Whether the host in a setting name ends at `n`: the name ends there or
/// goes on with `/` or `:`.
pub open spec fn host_ends_at(key: Seq<char>, n: int) -> bool {
    n >= key.len() || key[n] == '/' || key[n] == ':'
}

/// Of the settings that name the auth token of `host`, the one whose name
/// sorts first.
pub open spec fn least_token_entry(entries: Seq<(Seq<char>, Seq<char>)>, host: Seq<char>) -> Option<(Seq<char>, Seq<char>)>
    decreases entries.len(),
{
    if entries.len() == 0 {
        None
    } else {
        let best = least_token_entry(entries.drop_last(), host);
        let e = entries.last();
        if is_token_key(e.0, host) {
            match best {
                None => Some(e),
                Some(b) => if seq_lt(e.0, b.0) {
                    Some(e)
                } else {
                    best
                },
            }
        } else {
            best
        }
    }
}

/// The host of a registry URL: the scheme (`https://`, `http://`) removed,
/// then everything from the first `/` on.
pub open spec fn spec_registry_host(registry: Seq<char>) -> Seq<char> {
    let h = trim_start_all(trim_start_all(registry, "https://"@), "http://"@);
    h.take(index_of_char(h, '/', 0))
}

/// The host of a registry URL.
pub fn registry_host(registry: &str) -> (r: String)
    ensures
        r@ == spec_registry_host(registry@),
{
    let h = trim_start_matches(&trim_start_matches(&to_chars(registry), "https://"), "http://");
    let end = position_of(&h, '/', 0);
    proof {
        assert(h@.take(end as int) == h@.subrange(0, end as int));
    }
    from_chars(&chars_of_range(&h, 0, end))
}

/// The scope of a scoped package name (`@acme/lib` has `@acme`).
pub open spec fn spec_scope_of(name: Seq<char>) -> Option<Seq<char>> {
    if name.len() > 0 && name[0] == '@' {
        Some(name.take(index_of_char(name, '/', 0)))
    } else {
        None
    }
}

/// The scope of a scoped package name.
pub fn scope_of(name: &str) -> (r: Option<String>)
    ensures
        match spec_scope_of(name@) {
            Some(s) => r matches Some(t) && t@ == s,
            None => r is None,
        },
{
    let n = to_chars(name);
    if n.len() > 0 && n[0] == '@' {
        let end = position_of(&n, '/', 0);
        assert(n@.take(end as int) == n@.subrange(0, end as int));
        Some(from_chars(&chars_of_range(&n, 0, end)))
    } else {
        None
    }
}

/// The packument URL of a package: the registry without trailing `/`, then
/// the name with its `/` encoded (`@scope%2Fname`).
pub open spec fn spec_packument_url(registry: Seq<char>, name: Seq<char>) -> Seq<char> {
    trim_trailing_slashes(registry) + seq!['/'] + encode_slashes(name)
}

/// `s` without its trailing `/` characters.
pub open spec fn trim_trailing_slashes(s: Seq<char>) -> Seq<char>
    decreases s.len(),
{
    if s.len() > 0 && s.last() == '/' {
        trim_trailing_slashes(s.drop_last())
    } else {
        s
    }
}

/// `s` with every `/` written `%2F`.
pub open spec fn encode_slashes(s: Seq<char>) -> Seq<char>
    decreases s.len(),
{
    if s.len() == 0 {
        seq![]
    } else {
        encode_slashes(s.drop_last()) + if s.last() == '/' {
            seq!['%', '2', 'F']
        } else {
            seq![s.last()]
        }
    }
}

/// The packument URL of a package.
pub fn packument_url(registry: &str, name: &str) -> (r: String)
    ensures
        r@ == spec_packument_url(registry@, name@),
{
    let reg = to_chars(registry);
    let mut end = reg.len();
    assert(reg@.take(end as int) == reg@);
    while end > 0 && reg[end - 1] == '/'
        invariant
            end <= reg.len(),
            trim_trailing_slashes(reg@) == trim_trailing_slashes(reg@.take(end as int)),
        decreases end,
    {
        assert(reg@.take(end as int).drop_last() == reg@.take(end - 1));
        end = end - 1;
    }
    assert(reg@.take(end as int) == reg@.subrange(0, end as int));
    let mut out = from_chars(&chars_of_range(&reg, 0, end));
    push_char(&mut out, '/');
    let n = to_chars(name);
    let ghost head = out@;
    let mut i: usize = 0;
    while i < n.len()
        invariant
            i <= n.len(),
            out@ == head + encode_slashes(n@.take(i as int)),
        decreases n.len() - i,
    {
        assert(n@.take(i + 1).drop_last() == n@.take(i as int));
        if n[i] == '/' {
            push_char(&mut out, '%');
            push_char(&mut out, '2');
            push_char(&mut out, 'F');
        } else {
            push_char(&mut out, n[i]);
        }
        i = i + 1;
    }
    assert(n@.take(n.len() as int) == n@);
    out
}

/// `dist-tags.<slug>` of a packument: the version the dist-tag points at.
pub open spec fn spec_dist_tag(packument: Seq<char>, slug: Seq<char>) -> Option<Seq<char>> {
    match json_document(packument) {
        Some(doc) => match spec_member(doc, "dist-tags"@) {
            Some(tags) => match spec_member(tags, slug) {
                Some(v) => spec_as_str(v),
                None => None,
            },
            None => None,
        },
        None => None,
    }
}

/// Extract `dist-tags.<slug>` from a packument body.
pub fn dist_tag(packument: &str, slug: &str) -> (r: Option<String>)
    ensures
        match spec_dist_tag(packument@, slug@) {
            Some(v) => r matches Some(s) && s@ == v,
            None => r is None,
        },
{
    let doc = match parse_json(packument) {
        Ok(d) => d,
        Err(_) => return None,
    };
    let tags = match member(&doc, "dist-tags") {
        Some(t) => t,
        None => return None,
    };
    let v = match member(tags, slug) {
        Some(v) => v,
        None => return None,
    };
    match as_str(v) {
        Some(s) => Some(String::from_str(s)),
        None => None,
    }
}

/// What an HTTP exchange with a registry gave.
pub enum HttpReply {
    /// A success status and the body.
    Success(String),
    /// A success status, but the body could not be read.
    Unreadable(String),
    /// Any other status code.
    Status(u16),
    /// The request did not complete (DNS, TLS, timeout...).
    Transport(String),
}

/// What a packument request means for a dist-tag lookup: a `404` is a miss
/// (the package is not there), any other failing status is a lookup failure,
/// and a body is searched for the dist-tag (absent is a miss).
pub open spec fn spec_packument_outcome(reply: HttpReply, url: Seq<char>, name: Seq<char>, slug: Seq<char>) -> Result<Option<Seq<char>>, Seq<char>> {
    match reply {
        HttpReply::Success(body) => Ok(spec_dist_tag(body@, slug)),
        HttpReply::Unreadable(e) => Err(e@),
        HttpReply::Status(code) => if code == 404 {
            Ok(None)
        } else {
            Err("npm registry "@ + url + " → HTTP "@ + spec_decimal(code as nat))
        },
        HttpReply::Transport(e) => Err("querying npm registry for "@ + name + ": "@ + e@),
    }
}

/// What a packument request means for a dist-tag lookup.
pub fn packument_outcome(reply: HttpReply, url: &str, name: &str, slug: &str) -> (r: Result<Option<String>, String>)
    ensures
        spec_packument_outcome(reply, url@, name@, slug@) == match r {
            Ok(Some(v)) => Ok(Some(v@)),
            Ok(None) => Ok(None),
            Err(e) => Err(e@),
        },
{
    match reply {
        HttpReply::Success(body) => match dist_tag(body.as_str(), slug) {
            Some(v) => Ok(Some(v)),
            None => Ok(None),
        },
        HttpReply::Unreadable(e) => Err(e),
        HttpReply::Status(code) => {
            if code == 404 {
                Ok(None)
            } else {
                let mut out = concat("npm registry ", url);
                out.append(" → HTTP ");
                out.append(decimal(code as usize).as_str());
                Err(out)
            }
        },
        HttpReply::Transport(e) => {
            let mut out = concat("querying npm registry for ", name);
            out.append(": ");
            out.append(e.as_str());
            Err(out)
        },
    }
}

} // verus!
