//! Pins `oci` coordinates in Compose files: rewrites `image: <prefix>:<tag>` to
//! the branch slug. Operates on raw text (not a YAML round-trip) so comments and
//! formatting survive.
//!
//! An image reference is recognised by one line grammar, shared by the rewrite
//! and by `verify` so that pinning and `verify` agree on what an image
//! reference is: `image:` as a line-leading mapping key (after indentation and
//! an optional `- ` list marker), optional whitespace, an optional opening
//! quote, the image prefix, `:`, and the tag (a non-empty run of characters
//! that are neither whitespace nor quotes). It never matches inside another key
//! such as `base_image:` or a `# image: ...` comment, and a rewrite of a quoted
//! value keeps the quotes. Flow-style mappings (`{image: x}`) are not matched.

use vstd::prelude::*;

use crate::rewriters::{Pin, PinView, pins_view, Rewriter};
use crate::workspace::{files_view, SbdError, SourceFile, Workspace, WorkspaceView};
use crate::text::{is_ws, is_whitespace, holds_at, has_prefix, has_suffix, matches_at, starts_with, ends_with, to_chars, chars_of_range, chars_eq, from_chars, string_of_range, concat};

verus! {

broadcast use vstd::string::group_string_axioms;

pub open spec fn is_quote(c: char) -> bool {
    c == '"' || c == '\''
}

/// The end of the whitespace run that starts at `i`.
pub open spec fn ws_end(s: Seq<char>, i: int) -> int
    decreases s.len() - i,
{
    if 0 <= i < s.len() && is_ws(s[i]) {
        ws_end(s, i + 1)
    } else {
        i
    }
}

/// The end of the tag that starts at `i`: the run of characters that are
/// neither whitespace nor quotes.
pub open spec fn tag_end(s: Seq<char>, i: int) -> int
    decreases s.len() - i,
{
    if 0 <= i < s.len() && !is_ws(s[i]) && !is_quote(s[i]) {
        tag_end(s, i + 1)
    } else {
        i
    }
}

/// Where the `image:` key of a line starts: after indentation and an optional
/// `-` list marker followed by whitespace.
pub open spec fn key_start(line: Seq<char>) -> int {
    let a = ws_end(line, 0);
    if a < line.len() && line[a] == '-' && ws_end(line, a + 1) > a + 1 {
        ws_end(line, a + 1)
    } else {
        a
    }
}

/// Where the image value starts: after `image:`, whitespace and an optional
/// opening quote.
pub open spec fn value_start(line: Seq<char>) -> int {
    let c = ws_end(line, key_start(line) + 6);
    if c < line.len() && is_quote(line[c]) {
        c + 1
    } else {
        c
    }
}

/// An image reference to `prefix` on `line`: the position of the `:` that ends
/// the prefix and the end of the tag after it.
pub open spec fn image_match(line: Seq<char>, prefix: Seq<char>) -> Option<(int, int)> {
    let d = value_start(line);
    let e = d + prefix.len();
    if holds_at(line, key_start(line), "image:"@) && holds_at(line, d, prefix) && e < line.len()
        && line[e] == ':' && tag_end(line, e + 1) > e + 1 {
        Some((e, tag_end(line, e + 1)))
    } else {
        None
    }
}

/// A line with the tag of its image reference to `prefix` (if any) replaced.
pub open spec fn rewrite_line(line: Seq<char>, prefix: Seq<char>, tag: Seq<char>) -> Seq<char> {
    match image_match(line, prefix) {
        Some((e, f)) => line.take(e + 1) + tag + line.skip(f),
        None => line,
    }
}

/// The index of the first `'\n'` at or after `i` (or the length).
pub open spec fn line_end(s: Seq<char>, i: int) -> int
    decreases s.len() - i,
{
    if 0 <= i < s.len() && s[i] != '\n' {
        line_end(s, i + 1)
    } else {
        i
    }
}

/// Every line of `content` rewritten.
pub open spec fn rewrite_text(content: Seq<char>, prefix: Seq<char>, tag: Seq<char>) -> Seq<char>
    decreases content.len(),
{
    let n = line_end(content, 0);
    proof {
        lemma_line_end_bounds(content, 0);
    }
    if n >= content.len() {
        rewrite_line(content, prefix, tag)
    } else {
        rewrite_line(content.take(n), prefix, tag) + seq!['\n'] + rewrite_text(
            content.skip(n + 1),
            prefix,
            tag,
        )
    }
}

/// The new content when a rewrite changes anything.
pub open spec fn spec_rewrite(content: Seq<char>, prefix: Seq<char>, tag: Seq<char>) -> Option<Seq<char>> {
    let out = rewrite_text(content, prefix, tag);
    if out == content {
        None
    } else {
        Some(out)
    }
}

pub proof fn lemma_ws_end_bounds(s: Seq<char>, i: int)
    requires
        0 <= i,
    ensures
        i <= ws_end(s, i),
        i <= s.len() ==> ws_end(s, i) <= s.len(),
        forall|k: int| i <= k < ws_end(s, i) ==> is_ws(#[trigger] s[k]),
        i <= ws_end(s, i) < s.len() ==> !is_ws(s[ws_end(s, i)]),
    decreases s.len() - i,
{
    if 0 <= i < s.len() && is_ws(s[i]) {
        lemma_ws_end_bounds(s, i + 1);
    }
}

pub proof fn lemma_tag_end_bounds(s: Seq<char>, i: int)
    requires
        0 <= i,
    ensures
        i <= tag_end(s, i),
        i <= s.len() ==> tag_end(s, i) <= s.len(),
        forall|k: int| i <= k < tag_end(s, i) ==> !is_ws(#[trigger] s[k]) && !is_quote(s[k]),
        i <= tag_end(s, i) < s.len() ==> is_ws(s[tag_end(s, i)]) || is_quote(s[tag_end(s, i)]),
    decreases s.len() - i,
{
    if 0 <= i < s.len() && !is_ws(s[i]) && !is_quote(s[i]) {
        lemma_tag_end_bounds(s, i + 1);
    }
}

pub proof fn lemma_line_end_bounds(s: Seq<char>, i: int)
    requires
        0 <= i <= s.len(),
    ensures
        i <= line_end(s, i) <= s.len(),
        forall|k: int| i <= k < line_end(s, i) ==> #[trigger] s[k] != '\n',
        line_end(s, i) < s.len() ==> s[line_end(s, i)] == '\n',
    decreases s.len() - i,
{
    if 0 <= i < s.len() && s[i] != '\n' {
        lemma_line_end_bounds(s, i + 1);
    }
}

fn skip_ws(s: &Vec<char>, i: usize) -> (r: usize)
    requires
        i <= s.len(),
    ensures
        r == ws_end(s@, i as int),
{
    let mut j = i;
    while j < s.len() && is_whitespace(s[j])
        invariant
            i <= j <= s.len(),
            ws_end(s@, i as int) == ws_end(s@, j as int),
        decreases s.len() - j,
    {
        j = j + 1;
    }
    j
}

fn skip_tag(s: &Vec<char>, i: usize) -> (r: usize)
    requires
        i <= s.len(),
    ensures
        r == tag_end(s@, i as int),
{
    let mut j = i;
    while j < s.len() && !is_whitespace(s[j]) && s[j] != '"' && s[j] != '\''
        invariant
            i <= j <= s.len(),
            tag_end(s@, i as int) == tag_end(s@, j as int),
        decreases s.len() - j,
    {
        j = j + 1;
    }
    j
}

/// The image reference to `prefix` on `line`, if there is one.
fn match_image(line: &Vec<char>, prefix: &Vec<char>) -> (r: Option<(usize, usize)>)
    ensures
        match image_match(line@, prefix@) {
            Some((e, f)) => r == Some((e as usize, f as usize)) && 0 <= e < f <= line@.len(),
            None => r is None,
        },
        r matches Some((e, f)) ==> e < f <= line.len(),
{
    proof {
        reveal_strlit("image:");
        lemma_ws_end_bounds(line@, 0);
    }
    let a = skip_ws(line, 0);
    let mut b = a;
    if a < line.len() && line[a] == '-' {
        proof {
            lemma_ws_end_bounds(line@, a + 1);
        }
        let w = skip_ws(line, a + 1);
        if w > a + 1 {
            b = w;
        }
    }
    assert(b == key_start(line@));
    let key = to_chars("image:");
    if !matches_at(line, b, &key) {
        return None;
    }
    proof {
        lemma_ws_end_bounds(line@, b + 6);
    }
    let c = skip_ws(line, b + 6);
    let d = if c < line.len() && (line[c] == '"' || line[c] == '\'') {
        c + 1
    } else {
        c
    };
    assert(d == value_start(line@));
    if !matches_at(line, d, prefix) {
        return None;
    }
    let e = d + prefix.len();
    if e >= line.len() || line[e] != ':' {
        return None;
    }
    proof {
        lemma_tag_end_bounds(line@, e + 1);
    }
    let f = skip_tag(line, e + 1);
    if f == e + 1 {
        return None;
    }
    Some((e, f))
}

proof fn lemma_rewrite_text_unfold(content: Seq<char>, start: int, prefix: Seq<char>, tag: Seq<char>)
    requires
        0 <= start <= content.len(),
    ensures
        ({
            let rest = content.skip(start);
            let n = line_end(content, start);
            &&& line_end(rest, 0) == n - start
            &&& n < content.len() ==> rewrite_text(rest, prefix, tag) == rewrite_line(
                content.subrange(start, n),
                prefix,
                tag,
            ) + seq!['\n'] + rewrite_text(content.skip(n + 1), prefix, tag)
            &&& n >= content.len() ==> rewrite_text(rest, prefix, tag) == rewrite_line(
                content.subrange(start, n),
                prefix,
                tag,
            )
        }),
{
    let rest = content.skip(start);
    lemma_line_end_shift(content, start, start);
    lemma_line_end_bounds(content, start);
    let n = line_end(content, start);
    assert(rest.take(n - start) =~= content.subrange(start, n));
    if n < content.len() {
        assert(rest.skip(n - start + 1) =~= content.skip(n + 1));
    }
    if n >= content.len() {
        assert(rest =~= content.subrange(start, n));
    }
}

proof fn lemma_line_end_shift(content: Seq<char>, start: int, i: int)
    requires
        0 <= start <= i <= content.len(),
    ensures
        line_end(content.skip(start), i - start) == line_end(content, i) - start,
    decreases content.len() - i,
{
    if i < content.len() && content[i] != '\n' {
        lemma_line_end_shift(content, start, i + 1);
    }
}

/// Append `v[from..to]` to `out`.
fn push_range(out: &mut Vec<char>, v: &Vec<char>, from: usize, to: usize)
    requires
        from <= to <= v.len(),
    ensures
        final(out)@ == old(out)@ + v@.subrange(from as int, to as int),
{
    let mut k: usize = from;
    while k < to
        invariant
            from <= k <= to <= v.len(),
            out@ == old(out)@ + v@.subrange(from as int, k as int),
        decreases to - k,
    {
        out.push(v[k]);
        k = k + 1;
        assert(v@.subrange(from as int, k as int) == v@.subrange(from as int, k - 1).push(v@[k - 1]));
    }
}

/// Append `line` with its image reference to `prefix` (if any) retagged.
fn push_rewritten_line(out: &mut Vec<char>, line: &Vec<char>, prefix: &Vec<char>, tag: &Vec<char>)
    ensures
        final(out)@ == old(out)@ + rewrite_line(line@, prefix@, tag@),
{
    match match_image(line, prefix) {
        Some((e, f)) => {
            push_range(out, line, 0, e + 1);
            push_range(out, tag, 0, tag.len());
            push_range(out, line, f, line.len());
            assert(line@.subrange(0, e + 1) == line@.take(e + 1));
            assert(tag@.subrange(0, tag@.len() as int) == tag@);
            assert(line@.subrange(f as int, line@.len() as int) == line@.skip(f as int));
        },
        None => {
            push_range(out, line, 0, line.len());
            assert(line@.subrange(0, line@.len() as int) == line@);
        },
    }
}

/// Rewrite `image: <prefix>:<anytag>` to `<prefix>:<tag>` on every line.
/// Returns the new content if anything changed.
pub fn rewrite(content: &str, image_prefix: &str, tag: &str) -> (r: Option<String>)
    ensures
        match spec_rewrite(content@, image_prefix@, tag@) {
            Some(s) => r matches Some(out) && out@ == s,
            None => r is None,
        },
{
    let c = to_chars(content);
    let p = to_chars(image_prefix);
    let t = to_chars(tag);
    let mut out: Vec<char> = Vec::new();
    let mut start: usize = 0;
    assert(c@.skip(0) == c@);
    loop
        invariant_except_break
            start <= c.len(),
            rewrite_text(c@, p@, t@) == out@ + rewrite_text(c@.skip(start as int), p@, t@),
        ensures
            rewrite_text(c@, p@, t@) == out@,
        decreases c.len() - start,
    {
        proof {
            lemma_rewrite_text_unfold(c@, start as int, p@, t@);
            lemma_line_end_bounds(c@, start as int);
        }
        let mut n = start;
        while n < c.len() && c[n] != '\n'
            invariant
                start <= n <= c.len(),
                line_end(c@, start as int) == line_end(c@, n as int),
            decreases c.len() - n,
        {
            n = n + 1;
        }
        let line = chars_of_range(&c, start, n);
        let ghost old_out = out@;
        push_rewritten_line(&mut out, &line, &p, &t);
        assert(out@ == old_out + rewrite_line(line@, p@, t@));
        if n >= c.len() {
            break;
        }
        out.push('\n');
        start = n + 1;
        assert(rewrite_text(c@, p@, t@) == out@ + rewrite_text(c@.skip(start as int), p@, t@));
    }
    if chars_eq(&out, &c) {
        None
    } else {
        Some(from_chars(&out))
    }
}

pub open spec fn is_digit(c: char) -> bool {
    '0' <= c && c <= '9'
}

/// A released tag without its optional `v`: dot-separated, non-empty runs of
/// ASCII digits (`1`, `1.2`, `1.2.3`).
pub open spec fn is_numeric_dotted(s: Seq<char>) -> bool {
    &&& s.len() > 0
    &&& forall|i: int| 0 <= i < s.len() ==> is_digit(#[trigger] s[i]) || s[i] == '.'
    &&& is_digit(s[0])
    &&& is_digit(s.last())
    &&& forall|i: int| 0 <= i < s.len() - 1 ==> !(#[trigger] s[i] == '.' && s[i + 1] == '.')
}

/// Whether an image tag is an in-flight branch reference rather than a
/// released version. Released tags are numeric-dotted with an optional `v`
/// (`1`, `1.2`, `1.2.3`, `v1.2.3`); a slug (`feat-x`) or a suffixed tag
/// (`1.2.3-feat`) is a branch reference.
pub open spec fn spec_is_branch_tag(tag: Seq<char>) -> bool {
    let core = if tag.len() > 0 && tag[0] == 'v' {
        tag.drop_first()
    } else {
        tag
    };
    !is_numeric_dotted(core)
}

/// Whether an image tag is an in-flight branch reference rather than a
/// released version.
pub fn is_branch_tag(tag: &str) -> (r: bool)
    ensures
        r == spec_is_branch_tag(tag@),
{
    let t = to_chars(tag);
    let start: usize = if t.len() > 0 && t[0] == 'v' {
        1
    } else {
        0
    };
    let ghost core = if t@.len() > 0 && t@[0] == 'v' {
        t@.drop_first()
    } else {
        t@
    };
    assert(core == t@.skip(start as int));
    if start >= t.len() {
        assert(core.len() == 0);
        return true;
    }
    assert(core[0] == t@[start as int]);
    assert(core.last() == t@[t.len() - 1]);
    if !('0' <= t[start] && t[start] <= '9') || !('0' <= t[t.len() - 1] && t[t.len() - 1] <= '9') {
        return true;
    }
    let mut i = start;
    while i < t.len()
        invariant
            start <= i <= t.len(),
            core == t@.skip(start as int),
            t@ == tag@,
            core == (if t@.len() > 0 && t@[0] == 'v' {
                t@.drop_first()
            } else {
                t@
            }),
            forall|k: int| 0 <= k < i - start ==> is_digit(#[trigger] core[k]) || core[k] == '.',
            forall|k: int| 0 <= k < i - start - 1 ==> !(#[trigger] core[k] == '.' && core[k + 1] == '.'),
        decreases t.len() - i,
    {
        let c = t[i];
        if !(('0' <= c && c <= '9') || c == '.') {
            assert(core[i - start] == c);
            assert(!(is_digit(core[i - start]) || core[i - start] == '.'));
            assert(!is_numeric_dotted(core));
            return true;
        }
        if c == '.' && i > start && t[i - 1] == '.' {
            assert(core[i - start - 1] == '.' && core[i - start] == '.');
            assert(!is_numeric_dotted(core));
            return true;
        }
        i = i + 1;
    }
    assert(is_numeric_dotted(core));
    false
}

/// Matches the `compose*.{yaml,yml}` glob.
pub open spec fn spec_is_compose_file(name: Seq<char>) -> bool {
    has_prefix(name, "compose"@) && (has_suffix(name, ".yaml"@) || has_suffix(name, ".yml"@))
}

/// Matches the `compose*.{yaml,yml}` glob.
pub fn is_compose_file(name: &str) -> (r: bool)
    ensures
        r == spec_is_compose_file(name@),
{
    let n = to_chars(name);
    starts_with(&n, &to_chars("compose")) && (ends_with(&n, &to_chars(".yaml")) || ends_with(
        &n,
        &to_chars(".yml"),
    ))
}

/// The lines of a text as `str::lines` yields them: split at `'\n'`, a `'\r'`
/// before a `'\n'` dropped, and no empty line after a final line ending.
pub open spec fn lines_of(content: Seq<char>) -> Seq<Seq<char>>
    decreases content.len(),
{
    if content.len() == 0 {
        seq![]
    } else {
        let n = line_end(content, 0);
        proof {
            lemma_line_end_bounds(content, 0);
        }
        if n >= content.len() {
            seq![content]
        } else {
            seq![strip_cr(content.take(n))] + lines_of(content.skip(n + 1))
        }
    }
}

/// A line without the `'\r'` of a `"\r\n"` ending.
pub open spec fn strip_cr(line: Seq<char>) -> Seq<char> {
    if line.len() > 0 && line.last() == '\r' {
        line.drop_last()
    } else {
        line
    }
}

/// The tag of an image reference.
pub open spec fn matched_tag(line: Seq<char>, e: int, f: int) -> Seq<char> {
    line.subrange(e + 1, f)
}

/// The pin a line holds, if its image reference to `prefix` has a branch tag.
pub open spec fn line_pin(line: Seq<char>, number: int, file: Seq<char>, prefix: Seq<char>) -> Option<PinView> {
    match image_match(line, prefix) {
        Some((e, f)) => if spec_is_branch_tag(matched_tag(line, e, f)) {
            Some(PinView { file, line: Some(number), reference: prefix + seq![':'] + matched_tag(line, e, f) })
        } else {
            None
        },
        None => None,
    }
}

/// The pins held by `lines`, numbered from `first`.
pub open spec fn pins_in_lines(lines: Seq<Seq<char>>, first: int, file: Seq<char>, prefix: Seq<char>) -> Seq<PinView>
    decreases lines.len(),
{
    if lines.len() == 0 {
        seq![]
    } else {
        let rest = pins_in_lines(lines.drop_first(), first + 1, file, prefix);
        match line_pin(lines[0], first, file, prefix) {
            Some(p) => seq![p] + rest,
            None => rest,
        }
    }
}

/// Every branch pin of `prefix` in a Compose file, with 1-based line numbers.
pub open spec fn spec_find_pins(file: Seq<char>, content: Seq<char>, prefix: Seq<char>) -> Seq<PinView> {
    pins_in_lines(lines_of(content), 1, file, prefix)
}

proof fn lemma_lines_of_unfold(content: Seq<char>, start: int)
    requires
        0 <= start < content.len(),
    ensures
        ({
            let rest = content.skip(start);
            let n = line_end(content, start);
            &&& start <= n <= content.len()
            &&& n >= content.len() ==> lines_of(rest) == seq![content.subrange(start, n)]
            &&& n < content.len() ==> lines_of(rest) == seq![strip_cr(content.subrange(start, n))]
                + lines_of(content.skip(n + 1))
        }),
{
    let rest = content.skip(start);
    lemma_line_end_shift(content, start, start);
    lemma_line_end_bounds(content, start);
    let n = line_end(content, start);
    assert(rest.take(n - start) =~= content.subrange(start, n));
    if n < content.len() {
        assert(rest.skip(n - start + 1) =~= content.skip(n + 1));
    } else {
        assert(rest =~= content.subrange(start, n));
    }
}

/// The pin `line` holds, if any.
fn find_line_pin(line: &Vec<char>, number: usize, file: &str, prefix: &str, p: &Vec<char>) -> (r: Option<Pin>)
    requires
        p@ == prefix@,
    ensures
        match line_pin(line@, number as int, file@, prefix@) {
            Some(v) => r matches Some(pin) && pin@ == v,
            None => r is None,
        },
{
    proof {
        reveal_strlit(":");
    }
    match match_image(line, p) {
        Some((e, f)) => {
            let tag = string_of_range(line, e + 1, f);
            if is_branch_tag(tag.as_str()) {
                let reference = concat(&concat(prefix, ":"), tag.as_str());
                assert(":"@ =~= seq![':']);
                assert(tag@ == matched_tag(line@, e as int, f as int));
                Some(Pin { file: String::from_str(file), line: Some(number), reference })
            } else {
                None
            }
        },
        None => None,
    }
}

/// Find every branch / pre-release pin of `target` in the Compose file `file`
/// whose text is `content`.
pub fn find_pins(file: &str, content: &str, target: &str) -> (r: Vec<Pin>)
    ensures
        pins_view(r@) == spec_find_pins(file@, content@, target@),
{
    let c = to_chars(content);
    let p = to_chars(target);
    let mut out: Vec<Pin> = Vec::new();
    let mut start: usize = 0;
    let mut seen: usize = 0;
    assert(c@.skip(0) == c@);
    while start < c.len()
        invariant
            start <= c.len(),
            seen <= start,
            p@ == target@,
            spec_find_pins(file@, c@, target@) == pins_view(out@) + pins_in_lines(
                lines_of(c@.skip(start as int)),
                seen + 1,
                file@,
                target@,
            ),
        decreases c.len() - start,
    {
        proof {
            lemma_lines_of_unfold(c@, start as int);
        }
        let mut n = start;
        while n < c.len() && c[n] != '\n'
            invariant
                start <= n <= c.len(),
                line_end(c@, start as int) == line_end(c@, n as int),
            decreases c.len() - n,
        {
            n = n + 1;
        }
        let mut line_stop = n;
        if n < c.len() && n > start && c[n - 1] == '\r' {
            line_stop = n - 1;
        }
        let line = chars_of_range(&c, start, line_stop);
        proof {
            if n < c.len() {
                assert(line@ == strip_cr(c@.subrange(start as int, n as int)));
            }
        }
        let ghost old_out = out@;
        let ghost rest_lines = if n < c.len() {
            lines_of(c@.skip(n + 1))
        } else {
            Seq::<Seq<char>>::empty()
        };
        proof {
            if n >= c.len() {
                assert(c@.subrange(start as int, n as int) == line@);
            }
            assert(lines_of(c@.skip(start as int)) == seq![line@] + rest_lines);
            assert((seq![line@] + rest_lines).drop_first() == rest_lines);
            assert((seq![line@] + rest_lines)[0] == line@);
        }
        match find_line_pin(&line, seen + 1, file, target, &p) {
            Some(pin) => {
                out.push(pin);
                assert(pins_view(out@) == pins_view(old_out) + seq![pin@]);
            },
            None => {},
        }
        if n >= c.len() {
            assert(c@.skip(c@.len() as int) == Seq::<char>::empty());
            start = c.len();
        } else {
            start = n + 1;
        }
        seen = seen + 1;
    }
    assert(c@.skip(start as int) == Seq::<char>::empty());
    out
}

/// A tag that a rewrite can write: non-empty, with no whitespace or quotes.
pub open spec fn is_clean_tag(tag: Seq<char>) -> bool {
    tag.len() > 0 && forall|i: int| 0 <= i < tag.len() ==> !is_ws(#[trigger] tag[i]) && !is_quote(tag[i])
}

proof fn lemma_ws_end_agree(s1: Seq<char>, s2: Seq<char>, i: int, k: int)
    requires
        0 <= i,
        k <= s1.len(),
        k <= s2.len(),
        s1.take(k) == s2.take(k),
        ws_end(s1, i) < k,
    ensures
        ws_end(s2, i) == ws_end(s1, i),
    decreases s1.len() - i,
{
    lemma_ws_end_bounds(s1, i);
    assert(s1[i] == s1.take(k)[i]);
    assert(s2[i] == s2.take(k)[i]);
    if 0 <= i < s1.len() && is_ws(s1[i]) {
        lemma_ws_end_agree(s1, s2, i + 1, k);
    }
}

proof fn lemma_tag_end_agree(s1: Seq<char>, s2: Seq<char>, i: int, k: int)
    requires
        0 <= i,
        k <= s1.len(),
        k <= s2.len(),
        s1.take(k) == s2.take(k),
        tag_end(s1, i) < k,
    ensures
        tag_end(s2, i) == tag_end(s1, i),
    decreases s1.len() - i,
{
    lemma_tag_end_bounds(s1, i);
    assert(s1[i] == s1.take(k)[i]);
    assert(s2[i] == s2.take(k)[i]);
    if 0 <= i < s1.len() && !is_ws(s1[i]) && !is_quote(s1[i]) {
        lemma_tag_end_agree(s1, s2, i + 1, k);
    }
}

/// Two lines that agree up to the `:` of a match of `prefix` in the first
/// find the same key and value positions.
proof fn lemma_match_head_agree(l1: Seq<char>, l2: Seq<char>, prefix: Seq<char>, e: int)
    requires
        image_match(l1, prefix) matches Some((e1, f1)) && e1 == e,
        e + 1 <= l2.len(),
        l1.take(e + 1) == l2.take(e + 1),
    ensures
        key_start(l2) == key_start(l1),
        value_start(l2) == value_start(l1),
        holds_at(l2, key_start(l2), "image:"@),
        holds_at(l2, value_start(l2), prefix),
        l2[e] == ':',
{
    reveal_strlit("image:");
    let k = e + 1;
    lemma_ws_end_bounds(l1, 0);
    let a = ws_end(l1, 0);
    let b = key_start(l1);
    // the key is followed by the value, so every scan stops before `e`
    assert(l1[b] == 'i') by {
        assert(l1.subrange(b, b + 6)[0] == l1[b]);
    }
    lemma_ws_end_agree(l1, l2, 0, k);
    if a < l1.len() && l1[a] == '-' {
        lemma_ws_end_bounds(l1, a + 1);
        assert(l1[a] == l1.take(k)[a]);
        assert(l2[a] == l2.take(k)[a]);
        if ws_end(l1, a + 1) > a + 1 {
            lemma_ws_end_agree(l1, l2, a + 1, k);
        } else {
            assert(ws_end(l1, a + 1) == a + 1);
            assert(a + 1 < k);
            lemma_ws_end_agree(l1, l2, a + 1, k);
        }
    } else if a < l1.len() {
        assert(l1[a] == l1.take(k)[a]);
        assert(l2[a] == l2.take(k)[a]);
    }
    assert(key_start(l2) == b);
    lemma_ws_end_bounds(l1, b + 6);
    let c = ws_end(l1, b + 6);
    assert(c < k);
    lemma_ws_end_agree(l1, l2, b + 6, k);
    assert(l1[c] == l1.take(k)[c]);
    assert(l2[c] == l2.take(k)[c]);
    assert(value_start(l2) == value_start(l1));
    assert(l2.subrange(b, b + 6) =~= l1.subrange(b, b + 6)) by {
        assert forall|j: int| 0 <= j < 6 implies #[trigger] l2.subrange(b, b + 6)[j] == l1.subrange(b, b + 6)[j] by {
            assert(l1[b + j] == l1.take(k)[b + j]);
            assert(l2[b + j] == l2.take(k)[b + j]);
        }
    }
    let d = value_start(l1);
    assert(l2.subrange(d, d + prefix.len()) =~= l1.subrange(d, d + prefix.len())) by {
        assert forall|j: int| 0 <= j < prefix.len() implies #[trigger] l2.subrange(d, d + prefix.len())[j]
            == l1.subrange(d, d + prefix.len())[j] by {
            assert(l1[d + j] == l1.take(k)[d + j]);
            assert(l2[d + j] == l2.take(k)[d + j]);
        }
    }
    assert(l1[e] == l1.take(k)[e]);
    assert(l2[e] == l2.take(k)[e]);
}

/// Rewriting a line that references `prefix` leaves a reference to `prefix`
/// at the same place, now carrying the new tag.
pub proof fn lemma_rewrite_line_retags(line: Seq<char>, prefix: Seq<char>, tag: Seq<char>)
    requires
        is_clean_tag(tag),
        image_match(line, prefix) is Some,
    ensures
        ({
            let (e, f) = image_match(line, prefix)->0;
            let out = rewrite_line(line, prefix, tag);
            &&& image_match(out, prefix) == Some((e, e + 1 + tag.len()))
            &&& matched_tag(out, e, e + 1 + tag.len()) == tag
        }),
{
    let (e, f) = image_match(line, prefix)->0;
    let out = rewrite_line(line, prefix, tag);
    lemma_tag_end_bounds(line, e + 1);
    assert(out.take(e + 1) =~= line.take(e + 1));
    lemma_match_head_agree(line, out, prefix, e);
    let g = e + 1 + tag.len();
    assert(out.subrange(e + 1, g) =~= tag);
    lemma_tag_end_run(out, e + 1, g);
    if g < out.len() {
        assert(out[g] == line[f]);
    }
}

/// `tag_end` runs through a clean run and stops at its end when what follows
/// is not part of a tag.
proof fn lemma_tag_end_run(s: Seq<char>, i: int, g: int)
    requires
        0 <= i <= g <= s.len(),
        forall|k: int| i <= k < g ==> !is_ws(#[trigger] s[k]) && !is_quote(s[k]),
        g < s.len() ==> (is_ws(s[g]) || is_quote(s[g])),
    ensures
        tag_end(s, i) == g,
    decreases g - i,
{
    if i < g {
        lemma_tag_end_run(s, i + 1, g);
    }
}

/// Rewriting is idempotent on a line.
pub proof fn lemma_rewrite_line_idempotent(line: Seq<char>, prefix: Seq<char>, tag: Seq<char>)
    requires
        is_clean_tag(tag),
    ensures
        rewrite_line(rewrite_line(line, prefix, tag), prefix, tag) == rewrite_line(line, prefix, tag),
{
    if image_match(line, prefix) is Some {
        lemma_rewrite_line_retags(line, prefix, tag);
        let (e, f) = image_match(line, prefix)->0;
        let out = rewrite_line(line, prefix, tag);
        let g = e + 1 + tag.len();
        assert(out.take(e + 1) + tag + out.skip(g) =~= out);
    }
}

/// Appending whitespace to a line keeps its image reference where it was.
proof fn lemma_match_extend_ws(z: Seq<char>, c: char, prefix: Seq<char>)
    requires
        is_ws(c),
        image_match(z, prefix) is Some,
    ensures
        image_match(z.push(c), prefix) == image_match(z, prefix),
{
    let y = z.push(c);
    let (e, f) = image_match(z, prefix)->0;
    lemma_tag_end_bounds(z, e + 1);
    assert(y.take(e + 1) =~= z.take(e + 1));
    lemma_match_head_agree(z, y, prefix, e);
    if f < z.len() {
        assert(y.take(z.len() as int) =~= z.take(z.len() as int));
        lemma_tag_end_agree(z, y, e + 1, z.len() as int);
    } else {
        lemma_tag_end_run(y, e + 1, f);
    }
}

/// Whatever a line of a rewritten text references, it references with the tag
/// that was written, whether or not its `"\r\n"` ending was split off.
proof fn lemma_rewritten_line_tag(line: Seq<char>, prefix: Seq<char>, tag: Seq<char>, z: Seq<char>)
    requires
        is_clean_tag(tag),
        z == rewrite_line(line, prefix, tag) || z == strip_cr(rewrite_line(line, prefix, tag)),
        image_match(z, prefix) is Some,
    ensures
        ({
            let (e, f) = image_match(z, prefix)->0;
            matched_tag(z, e, f) == tag
        }),
{
    let y = rewrite_line(line, prefix, tag);
    if image_match(line, prefix) is None {
        assert(y == line);
        assert(strip_cr(y) == y || (y.len() > 0 && y.last() == '\r' && strip_cr(y) == y.drop_last()));
        if z != y {
            lemma_match_extend_ws(z, '\r', prefix);
            assert(z.push('\r') =~= y);
        }
    } else {
        lemma_rewrite_line_retags(line, prefix, tag);
        if z != y {
            assert(y.len() > 0 && y.last() == '\r' && z == y.drop_last());
            lemma_match_extend_ws(z, '\r', prefix);
            assert(z.push('\r') =~= y);
            let (e, f) = image_match(z, prefix)->0;
            lemma_tag_end_bounds(z, e + 1);
            assert(matched_tag(z, e, f) =~= matched_tag(y, e, f));
        }
    }
}

/// The end of the first line of `a + "\n" + b` is the length of `a` when `a`
/// holds no line break.
proof fn lemma_line_end_of_joined(a: Seq<char>, b: Seq<char>, i: int)
    requires
        0 <= i <= a.len(),
        forall|k: int| 0 <= k < a.len() ==> #[trigger] a[k] != '\n',
    ensures
        line_end(a + seq!['\n'] + b, i) == a.len(),
        line_end(a, i) == a.len(),
    decreases a.len() - i,
{
    if i < a.len() {
        assert((a + seq!['\n'] + b)[i] == a[i]);
        lemma_line_end_of_joined(a, b, i + 1);
    } else {
        assert((a + seq!['\n'] + b)[i] == '\n');
    }
}

/// A rewrite adds no line break to a line that holds none.
proof fn lemma_rewrite_line_no_break(line: Seq<char>, prefix: Seq<char>, tag: Seq<char>)
    requires
        is_clean_tag(tag),
        forall|k: int| 0 <= k < line.len() ==> #[trigger] line[k] != '\n',
    ensures
        forall|k: int|
            0 <= k < rewrite_line(line, prefix, tag).len() ==> #[trigger] rewrite_line(line, prefix, tag)[k]
                != '\n',
{
    if image_match(line, prefix) is Some {
        let (e, f) = image_match(line, prefix)->0;
        lemma_tag_end_bounds(line, e + 1);
        let out = rewrite_line(line, prefix, tag);
        assert forall|k: int| 0 <= k < out.len() implies #[trigger] out[k] != '\n' by {
            if k < e + 1 {
                assert(out[k] == line[k]);
            } else if k < e + 1 + tag.len() {
                assert(out[k] == tag[k - e - 1]);
            } else {
                assert(out[k] == line[k - e - 1 - tag.len() + f]);
            }
        }
    }
}

/// How a rewritten text splits: the rewritten first line, then the rest.
proof fn lemma_rewrite_text_split(content: Seq<char>, prefix: Seq<char>, tag: Seq<char>)
    requires
        is_clean_tag(tag),
    ensures
        ({
            let n = line_end(content, 0);
            let r0 = rewrite_line(content.take(n), prefix, tag);
            let out = rewrite_text(content, prefix, tag);
            &&& forall|k: int| 0 <= k < r0.len() ==> #[trigger] r0[k] != '\n'
            &&& n < content.len() ==> out == r0 + seq!['\n'] + rewrite_text(content.skip(n + 1), prefix, tag)
                && line_end(out, 0) == r0.len()
                && out.take(r0.len() as int) == r0
                && out.skip(r0.len() as int + 1) == rewrite_text(content.skip(n + 1), prefix, tag)
            &&& n >= content.len() ==> out == r0 && line_end(out, 0) == out.len()
        }),
{
    lemma_line_end_bounds(content, 0);
    let n = line_end(content, 0);
    let line = content.take(n);
    assert forall|k: int| 0 <= k < line.len() implies #[trigger] line[k] != '\n' by {
        assert(line[k] == content[k]);
    }
    lemma_rewrite_line_no_break(line, prefix, tag);
    let r0 = rewrite_line(line, prefix, tag);
    let rest = rewrite_text(content.skip(n + 1), prefix, tag);
    lemma_line_end_of_joined(r0, rest, 0);
    if n < content.len() {
        assert((r0 + seq!['\n'] + rest).take(r0.len() as int) =~= r0);
        assert((r0 + seq!['\n'] + rest).skip(r0.len() as int + 1) =~= rest);
    } else {
        assert(line =~= content);
        lemma_line_end_of_joined(r0, Seq::<char>::empty(), 0);
    }
}

/// Rewriting a text twice to the same tag changes nothing the second time:
/// once pinned, a target reads as already at its tag.
pub proof fn lemma_rewrite_text_idempotent(content: Seq<char>, prefix: Seq<char>, tag: Seq<char>)
    requires
        is_clean_tag(tag),
    ensures
        rewrite_text(rewrite_text(content, prefix, tag), prefix, tag) == rewrite_text(content, prefix, tag),
        spec_rewrite(rewrite_text(content, prefix, tag), prefix, tag) is None,
    decreases content.len(),
{
    lemma_line_end_bounds(content, 0);
    lemma_rewrite_text_split(content, prefix, tag);
    let n = line_end(content, 0);
    let r0 = rewrite_line(content.take(n), prefix, tag);
    let out = rewrite_text(content, prefix, tag);
    lemma_rewrite_line_idempotent(content.take(n), prefix, tag);
    if n < content.len() {
        lemma_rewrite_text_idempotent(content.skip(n + 1), prefix, tag);
    }
}

/// The lines of a non-empty text: its first line, then the lines of the rest.
proof fn lemma_lines_of_first(x: Seq<char>)
    requires
        x.len() > 0,
    ensures
        line_end(x, 0) >= x.len() ==> lines_of(x) == seq![x],
        line_end(x, 0) < x.len() ==> lines_of(x) == seq![strip_cr(x.take(line_end(x, 0)))] + lines_of(
            x.skip(line_end(x, 0) + 1),
        ),
{
}

/// After a rewrite, every line that references `prefix` as an image
/// references it with the tag that was written.
pub proof fn lemma_rewritten_references_carry_tag(content: Seq<char>, prefix: Seq<char>, tag: Seq<char>)
    requires
        is_clean_tag(tag),
    ensures
        forall|i: int|
            #![trigger lines_of(rewrite_text(content, prefix, tag))[i]]
            0 <= i < lines_of(rewrite_text(content, prefix, tag)).len() && image_match(
                lines_of(rewrite_text(content, prefix, tag))[i],
                prefix,
            ) is Some ==> {
                let l = lines_of(rewrite_text(content, prefix, tag))[i];
                let (e, f) = image_match(l, prefix)->0;
                matched_tag(l, e, f) == tag
            },
    decreases content.len(),
{
    lemma_line_end_bounds(content, 0);
    lemma_rewrite_text_split(content, prefix, tag);
    let n = line_end(content, 0);
    let line = content.take(n);
    let r0 = rewrite_line(line, prefix, tag);
    let out = rewrite_text(content, prefix, tag);
    let ls = lines_of(out);
    if out.len() == 0 {
        assert(ls.len() == 0);
    } else if n < content.len() {
        let rest = content.skip(n + 1);
        lemma_rewritten_references_carry_tag(rest, prefix, tag);
        lemma_lines_of_first(out);
        assert(ls == seq![strip_cr(r0)] + lines_of(rewrite_text(rest, prefix, tag)));
        assert forall|i: int|
            #![trigger ls[i]]
            0 <= i < ls.len() && image_match(ls[i], prefix) is Some implies {
                let (e, f) = image_match(ls[i], prefix)->0;
                matched_tag(ls[i], e, f) == tag
            } by {
            if i == 0 {
                lemma_rewritten_line_tag(line, prefix, tag, ls[0]);
            } else {
                assert(ls[i] == lines_of(rewrite_text(rest, prefix, tag))[i - 1]);
            }
        }
    } else {
        lemma_lines_of_first(out);
        assert(ls == seq![r0]);
        assert forall|i: int|
            #![trigger ls[i]]
            0 <= i < ls.len() && image_match(ls[i], prefix) is Some implies {
                let (e, f) = image_match(ls[i], prefix)->0;
                matched_tag(ls[i], e, f) == tag
            } by {
            lemma_rewritten_line_tag(line, prefix, tag, ls[0]);
        }
    }
}

/// `verify` catches what a rewrite writes: once a target is rewritten to a
/// branch tag, `verify` reports every line that references it, each with the
/// branch tag.
pub proof fn lemma_verify_catches_rewrite(
    file: Seq<char>,
    content: Seq<char>,
    prefix: Seq<char>,
    tag: Seq<char>,
)
    requires
        is_clean_tag(tag),
        spec_is_branch_tag(tag),
    ensures
        forall|i: int|
            #![trigger lines_of(rewrite_text(content, prefix, tag))[i]]
            0 <= i < lines_of(rewrite_text(content, prefix, tag)).len() && image_match(
                lines_of(rewrite_text(content, prefix, tag))[i],
                prefix,
            ) is Some ==> line_pin(lines_of(rewrite_text(content, prefix, tag))[i], i + 1, file, prefix)
                == Some(PinView { file, line: Some(i + 1), reference: prefix + seq![':'] + tag }),
{
    lemma_rewritten_references_carry_tag(content, prefix, tag);
}

/// Every line pin is among the pins of the lines.
proof fn lemma_pins_in_lines_has(lines: Seq<Seq<char>>, first: int, file: Seq<char>, prefix: Seq<char>, i: int)
    requires
        0 <= i < lines.len(),
        line_pin(lines[i], first + i, file, prefix) is Some,
    ensures
        pins_in_lines(lines, first, file, prefix).contains(line_pin(lines[i], first + i, file, prefix)->0),
    decreases lines.len(),
{
    let rest = pins_in_lines(lines.drop_first(), first + 1, file, prefix);
    let all = pins_in_lines(lines, first, file, prefix);
    let p = line_pin(lines[i], first + i, file, prefix)->0;
    if i == 0 {
        assert(all[0] == p);
    } else {
        assert(lines.drop_first()[i - 1] == lines[i]);
        lemma_pins_in_lines_has(lines.drop_first(), first + 1, file, prefix, i - 1);
        let j = choose|j: int| 0 <= j < rest.len() && rest[j] == p;
        match line_pin(lines[0], first, file, prefix) {
            Some(q) => assert(all[j + 1] == p),
            None => assert(all[j] == p),
        }
    }
}

/// Every pin of every file is among the pins of the files.
proof fn lemma_pins_in_files_has(files: Seq<(Seq<char>, Seq<char>)>, prefix: Seq<char>, k: int, p: PinView)
    requires
        0 <= k < files.len(),
        spec_find_pins(files[k].0, files[k].1, prefix).contains(p),
    ensures
        pins_in_files(files, prefix).contains(p),
    decreases files.len(),
{
    let init = files.drop_last();
    let a = pins_in_files(init, prefix);
    let b = spec_find_pins(files.last().0, files.last().1, prefix);
    if k < files.len() - 1 {
        assert(init[k] == files[k]);
        lemma_pins_in_files_has(init, prefix, k, p);
        let j = choose|j: int| 0 <= j < a.len() && a[j] == p;
        assert((a + b)[j] == p);
    } else {
        let j = choose|j: int| 0 <= j < b.len() && b[j] == p;
        assert((a + b)[a.len() + j] == p);
    }
}

/// `verify` scans every Compose file: whatever line of whatever Compose file
/// holds a branch pin of the target, that pin (with its file and line) is in
/// what the Compose rewriter reports.
pub proof fn lemma_every_compose_pin_is_reported(ws: WorkspaceView, target: Seq<char>)
    ensures
        forall|k: int, i: int|
            #![trigger lines_of(ws.compose_files[k].1)[i]]
            0 <= k < ws.compose_files.len() && 0 <= i < lines_of(ws.compose_files[k].1).len() && line_pin(
                lines_of(ws.compose_files[k].1)[i],
                i + 1,
                ws.compose_files[k].0,
                target,
            ) is Some ==> Compose.spec_find_branch_pin(ws, target)->0.contains(
                line_pin(lines_of(ws.compose_files[k].1)[i], i + 1, ws.compose_files[k].0, target)->0,
            ),
{
    assert forall|k: int, i: int|
        #![trigger lines_of(ws.compose_files[k].1)[i]]
        0 <= k < ws.compose_files.len() && 0 <= i < lines_of(ws.compose_files[k].1).len() && line_pin(
            lines_of(ws.compose_files[k].1)[i],
            i + 1,
            ws.compose_files[k].0,
            target,
        ) is Some implies Compose.spec_find_branch_pin(ws, target)->0.contains(
        line_pin(lines_of(ws.compose_files[k].1)[i], i + 1, ws.compose_files[k].0, target)->0,
    ) by {
        let f = ws.compose_files[k];
        let p = line_pin(lines_of(f.1)[i], 1 + i, f.0, target)->0;
        lemma_pins_in_lines_has(lines_of(f.1), 1, f.0, target, i);
        lemma_pins_in_files_has(ws.compose_files, target, k, p);
    }
}

/// The lines of a text as a rewrite reads them: split at each line feed, a
/// `'\r'` before it kept (it is whitespace, so it never belongs to a tag).
pub open spec fn raw_lines(content: Seq<char>) -> Seq<Seq<char>>
    decreases content.len(),
{
    let n = line_end(content, 0);
    proof {
        lemma_line_end_bounds(content, 0);
    }
    if n >= content.len() {
        seq![content]
    } else {
        seq![content.take(n)] + raw_lines(content.skip(n + 1))
    }
}

/// Whether the image reference to `prefix` on `line`, if there is one,
/// already carries `tag`.
pub open spec fn already_tagged(line: Seq<char>, prefix: Seq<char>, tag: Seq<char>) -> bool {
    match image_match(line, prefix) {
        Some((e, f)) => matched_tag(line, e, f) == tag,
        None => true,
    }
}

/// A line is left as it is exactly when it is already tagged.
proof fn lemma_rewrite_line_fixed(line: Seq<char>, prefix: Seq<char>, tag: Seq<char>)
    ensures
        rewrite_line(line, prefix, tag) == line <==> already_tagged(line, prefix, tag),
{
    if let Some((e, f)) = image_match(line, prefix) {
        lemma_tag_end_bounds(line, e + 1);
        let out = rewrite_line(line, prefix, tag);
        if matched_tag(line, e, f) == tag {
            assert(out =~= line);
        }
        if out == line {
            assert(tag.len() == f - e - 1);
            assert(matched_tag(line, e, f) =~= tag) by {
                assert forall|k: int| 0 <= k < tag.len() implies matched_tag(line, e, f)[k] == tag[k] by {
                    assert(out[e + 1 + k] == tag[k]);
                }
            }
        }
    }
}

/// A rewrite changes nothing exactly when every image reference to `prefix`
/// already carries the tag; and it keeps the number of lines.
pub proof fn lemma_rewrite_noop_iff_tagged(content: Seq<char>, prefix: Seq<char>, tag: Seq<char>)
    requires
        is_clean_tag(tag),
    ensures
        spec_rewrite(content, prefix, tag) is None <==> (forall|k: int|
            0 <= k < raw_lines(content).len() ==> already_tagged(#[trigger] raw_lines(content)[k], prefix, tag)),
        lines_of(rewrite_text(content, prefix, tag)).len() == lines_of(content).len(),
    decreases content.len(),
{
    lemma_line_end_bounds(content, 0);
    lemma_rewrite_text_split(content, prefix, tag);
    let n = line_end(content, 0);
    let line = content.take(n);
    let r0 = rewrite_line(line, prefix, tag);
    let out = rewrite_text(content, prefix, tag);
    let ls = raw_lines(content);
    lemma_rewrite_line_fixed(line, prefix, tag);
    if n >= content.len() {
        assert(line =~= content);
        assert(ls == seq![content]);
        if content.len() == 0 {
            assert(image_match(content, prefix) is None);
            assert(out =~= content);
        } else {
            if let Some((e, f)) = image_match(line, prefix) {
                assert(r0.len() >= e + 1);
            }
            assert(out.len() > 0);
            lemma_lines_of_first(out);
            lemma_lines_of_first(content);
        }
        if forall|k: int| 0 <= k < ls.len() ==> already_tagged(#[trigger] ls[k], prefix, tag) {
            assert(already_tagged(ls[0], prefix, tag));
        }
    } else {
        let rest = content.skip(n + 1);
        let r = rewrite_text(rest, prefix, tag);
        lemma_rewrite_noop_iff_tagged(rest, prefix, tag);
        assert(ls == seq![line] + raw_lines(rest));
        assert(content =~= line + seq!['\n'] + rest);
        if out == content {
            assert(r0 == line);
            assert(r == rest);
        }
        if r0 == line && r == rest {
            assert(out =~= content);
        }
        if forall|k: int| 0 <= k < ls.len() ==> already_tagged(#[trigger] ls[k], prefix, tag) {
            assert(already_tagged(ls[0], prefix, tag));
            assert forall|k: int| 0 <= k < raw_lines(rest).len() implies already_tagged(
                #[trigger] raw_lines(rest)[k],
                prefix,
                tag,
            ) by {
                assert(raw_lines(rest)[k] == ls[k + 1]);
            }
        }
        if out == content {
            assert forall|k: int| 0 <= k < ls.len() implies already_tagged(#[trigger] ls[k], prefix, tag) by {
                if k > 0 {
                    assert(ls[k] == raw_lines(rest)[k - 1]);
                }
            }
        }
        lemma_lines_of_first(out);
        lemma_lines_of_first(content);
    }
}

/// The Compose rewriter: pins `oci` coordinates in `compose*.{yaml,yml}` files.
#[derive(Clone, Copy)]
pub struct Compose;

/// Every Compose file rewritten, and whether any changed.
pub open spec fn rewrite_files(files: Seq<(Seq<char>, Seq<char>)>, prefix: Seq<char>, tag: Seq<char>) -> (Seq<(Seq<char>, Seq<char>)>, bool)
    decreases files.len(),
{
    if files.len() == 0 {
        (seq![], false)
    } else {
        let (rest, changed) = rewrite_files(files.drop_last(), prefix, tag);
        let (name, content) = files.last();
        match spec_rewrite(content, prefix, tag) {
            Some(new) => (rest.push((name, new)), true),
            None => (rest.push((name, content)), changed),
        }
    }
}

/// Every branch pin of `prefix` in the Compose files, file by file.
pub open spec fn pins_in_files(files: Seq<(Seq<char>, Seq<char>)>, prefix: Seq<char>) -> Seq<PinView>
    decreases files.len(),
{
    if files.len() == 0 {
        seq![]
    } else {
        pins_in_files(files.drop_last(), prefix) + spec_find_pins(files.last().0, files.last().1, prefix)
    }
}

impl Rewriter for Compose {
    open spec fn spec_kind(&self) -> Seq<char> {
        "oci"@
    }

    open spec fn spec_rewrite(&self, ws: WorkspaceView, target: Seq<char>, slug: Seq<char>) -> Option<(WorkspaceView, bool)> {
        let (files, changed) = rewrite_files(ws.compose_files, target, slug);
        Some((WorkspaceView { compose_files: files, ..ws }, changed))
    }

    open spec fn spec_find_branch_pin(&self, ws: WorkspaceView, target: Seq<char>) -> Option<Seq<PinView>> {
        Some(pins_in_files(ws.compose_files, target))
    }

    fn kind(&self) -> (r: &'static str) {
        "oci"
    }

    fn rewrite(&self, ws: &mut Workspace, target: &str, slug: &str) -> (r: Result<bool, SbdError>) {
        let mut files: Vec<SourceFile> = Vec::new();
        std::mem::swap(&mut files, &mut ws.compose_files);
        let ghost src = files_view(files@);
        assert(src == old(ws)@.compose_files);
        let mut out: Vec<SourceFile> = Vec::new();
        let mut changed = false;
        let mut i: usize = 0;
        while i < files.len()
            invariant
                i <= files.len(),
                src == files_view(files@),
                (files_view(out@), changed) == rewrite_files(src.take(i as int), target@, slug@),
            decreases files.len() - i,
        {
            let name = files[i].name.clone();
            let content = match rewrite(files[i].content.as_str(), target, slug) {
                Some(new) => {
                    changed = true;
                    new
                },
                None => files[i].content.clone(),
            };
            out.push(SourceFile { name, content });
            proof {
                assert(src.take(i + 1).drop_last() == src.take(i as int));
                assert(src.take(i + 1).last() == src[i as int]);
                assert(files_view(out@) =~= files_view(out@.drop_last()).push((out@.last().name@, out@.last().content@)));
            }
            i = i + 1;
        }
        assert(src.take(files.len() as int) == src);
        ws.compose_files = out;
        Ok(changed)
    }

    fn find_branch_pin(&self, ws: &Workspace, target: &str) -> (r: Result<Vec<Pin>, SbdError>) {
        let ghost src = ws@.compose_files;
        let mut pins: Vec<Pin> = Vec::new();
        let mut i: usize = 0;
        while i < ws.compose_files.len()
            invariant
                i <= ws.compose_files.len(),
                src == files_view(ws.compose_files@),
                pins_view(pins@) == pins_in_files(src.take(i as int), target@),
            decreases ws.compose_files.len() - i,
        {
            let file = &ws.compose_files[i];
            let mut found = find_pins(file.name.as_str(), file.content.as_str(), target);
            let ghost before = pins@;
            let ghost got = found@;
            pins.append(&mut found);
            proof {
                assert(src.take(i + 1).drop_last() == src.take(i as int));
                assert(src.take(i + 1).last() == src[i as int]);
                assert(pins_view(pins@) =~= pins_view(before) + pins_view(got)) by {
                    assert(pins@ == before + got);
                }
            }
            i = i + 1;
        }
        assert(src.take(ws.compose_files.len() as int) == src);
        Ok(pins)
    }
}

pub open spec fn lines_view(v: Seq<Vec<char>>) -> Seq<Seq<char>> {
    v.map_values(|l: Vec<char>| l@)
}

/// The lines of `s` as `str::lines` yields them.
pub fn text_lines(s: &str) -> (r: Vec<Vec<char>>)
    ensures
        lines_view(r@) == lines_of(s@),
{
    let c = to_chars(s);
    let mut out: Vec<Vec<char>> = Vec::new();
    let mut start: usize = 0;
    assert(c@.skip(0) == c@);
    while start < c.len()
        invariant
            start <= c.len(),
            lines_of(c@) == lines_view(out@) + lines_of(c@.skip(start as int)),
        decreases c.len() - start,
    {
        proof {
            lemma_lines_of_unfold(c@, start as int);
        }
        let mut n = start;
        while n < c.len() && c[n] != '\n'
            invariant
                start <= n <= c.len(),
                line_end(c@, start as int) == line_end(c@, n as int),
            decreases c.len() - n,
        {
            n = n + 1;
        }
        let mut line_stop = n;
        if n < c.len() && n > start && c[n - 1] == '\r' {
            line_stop = n - 1;
        }
        let line = chars_of_range(&c, start, line_stop);
        let ghost rest_lines = if n < c.len() {
            lines_of(c@.skip(n + 1))
        } else {
            Seq::<Seq<char>>::empty()
        };
        proof {
            if n < c.len() {
                assert(line@ == strip_cr(c@.subrange(start as int, n as int)));
            } else {
                assert(c@.subrange(start as int, n as int) == line@);
            }
            assert(lines_of(c@.skip(start as int)) == seq![line@] + rest_lines);
        }
        let ghost before = out@;
        out.push(line);
        proof {
            assert(lines_view(out@) =~= lines_view(before) + seq![line@]);
        }
        if n >= c.len() {
            assert(c@.skip(c@.len() as int) == Seq::<char>::empty());
            start = c.len();
        } else {
            start = n + 1;
        }
    }
    assert(c@.skip(start as int) == Seq::<char>::empty());
    out
}

/// A rewrite leaves every Compose file as the rewritten text of what it held.
pub proof fn lemma_rewrite_files_shape(files: Seq<(Seq<char>, Seq<char>)>, prefix: Seq<char>, tag: Seq<char>)
    ensures
        rewrite_files(files, prefix, tag).0.len() == files.len(),
        forall|k: int|
            0 <= k < files.len() ==> #[trigger] rewrite_files(files, prefix, tag).0[k] == (
                files[k].0,
                rewrite_text(files[k].1, prefix, tag),
            ),
    decreases files.len(),
{
    if files.len() > 0 {
        let init = files.drop_last();
        lemma_rewrite_files_shape(init, prefix, tag);
        let n = files.len() - 1;
        assert forall|k: int| 0 <= k < files.len() implies #[trigger] rewrite_files(files, prefix, tag).0[k] == (
            files[k].0,
            rewrite_text(files[k].1, prefix, tag),
        ) by {
            if k < n {
                assert(files[k] == init[k]);
                assert(rewrite_files(files, prefix, tag).0[k] == rewrite_files(init, prefix, tag).0[k]);
            }
        }
    }
}

/// Every slug `sync` pins with (that of a non-empty branch) is a tag the
/// image grammar reads back whole: no whitespace, no quotes.
pub proof fn lemma_slug_is_clean_tag(branch: Seq<char>)
    requires
        branch.len() > 0,
    ensures
        is_clean_tag(crate::slug::spec_sanitize(branch)),
{
    crate::slug::lemma_sanitize_shape(branch);
    let t = crate::slug::spec_sanitize(branch);
    assert forall|i: int| 0 <= i < t.len() implies !is_ws(#[trigger] t[i]) && !is_quote(t[i]) by {
        assert(crate::slug::is_ascii_alnum(t[i]) || t[i] == '-');
    }
}

/// Pinning the Compose files again to the same tag changes nothing: a
/// second `sync` finds every target already at its tag.
pub proof fn lemma_compose_rewrite_is_stable(files: Seq<(Seq<char>, Seq<char>)>, prefix: Seq<char>, tag: Seq<char>)
    requires
        is_clean_tag(tag),
    ensures
        rewrite_files(rewrite_files(files, prefix, tag).0, prefix, tag) == (rewrite_files(files, prefix, tag).0, false),
    decreases files.len(),
{
    if files.len() > 0 {
        let once = rewrite_files(files, prefix, tag).0;
        let init = files.drop_last();
        lemma_compose_rewrite_is_stable(init, prefix, tag);
        lemma_rewrite_files_shape(files, prefix, tag);
        lemma_rewrite_files_shape(init, prefix, tag);
        assert(once.drop_last() =~= rewrite_files(init, prefix, tag).0);
        let (name, content) = files.last();
        lemma_rewrite_text_idempotent(content, prefix, tag);
        assert(once.last() == (name, rewrite_text(content, prefix, tag)));
        match spec_rewrite(content, prefix, tag) {
            Some(new) => {},
            None => {
                assert(rewrite_text(content, prefix, tag) == content);
            },
        }
        assert(rewrite_files(once, prefix, tag).0 =~= once);
    }
}

/// `verify` catches what `sync` writes into Compose files: after the Compose
/// rewriter pins `target` to a branch tag, every line of every Compose file
/// that references `target` as an image is a pin `verify` reports, with the
/// branch tag.
pub proof fn lemma_compose_pins_are_caught(ws: WorkspaceView, target: Seq<char>, slug: Seq<char>)
    requires
        is_clean_tag(slug),
        spec_is_branch_tag(slug),
    ensures
        ({
            let (rewritten, _) = Compose.spec_rewrite(ws, target, slug)->0;
            let files = rewritten.compose_files;
            forall|k: int, i: int|
                #![trigger lines_of(files[k].1)[i]]
                0 <= k < files.len() && 0 <= i < lines_of(files[k].1).len() && image_match(
                    lines_of(files[k].1)[i],
                    target,
                ) is Some ==> line_pin(lines_of(files[k].1)[i], i + 1, files[k].0, target) == Some(
                    PinView { file: files[k].0, line: Some(i + 1), reference: target + seq![':'] + slug },
                )
        }),
{
    let (rewritten, _) = Compose.spec_rewrite(ws, target, slug)->0;
    let files = rewritten.compose_files;
    lemma_rewrite_files_shape(ws.compose_files, target, slug);
    assert forall|k: int, i: int|
        #![trigger lines_of(files[k].1)[i]]
        0 <= k < files.len() && 0 <= i < lines_of(files[k].1).len() && image_match(lines_of(files[k].1)[i], target)
            is Some implies line_pin(lines_of(files[k].1)[i], i + 1, files[k].0, target) == Some(
        PinView { file: files[k].0, line: Some(i + 1), reference: target + seq![':'] + slug },
    ) by {
        lemma_verify_catches_rewrite(files[k].0, ws.compose_files[k].1, target, slug);
        assert(files[k].1 == rewrite_text(ws.compose_files[k].1, target, slug));
    }
}

} // verus!
