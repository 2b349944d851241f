//! The `.sync-branch-deps.yaml` schema: a flat map from an ecosystem key
//! (`npm`, `oci`, ...) to the list of that ecosystem's targets that sbd
//! manages. Nothing is auto-discovered: a repo declares exactly what it wants
//! resolved and rewritten. Unknown keys are surfaced by the orchestrator, not
//! rejected here, and any value that is not a list of targets is set aside
//! (and surfaced as a warning) rather than failing the parse, so a newer
//! config (new keys, or added scalar schema keys like `version: 2`) is read by
//! an older binary without a hard failure.

use vstd::prelude::*;

use crate::text::{concat, seq_lt, str_eq};

verus! {

broadcast use vstd::string::group_string_axioms;

pub const CONFIG_FILE: &'static str = ".sync-branch-deps.yaml";

/// A top-level entry of a YAML document: its key and, when its value is a list
/// of strings, that list.
pub type RawEntry = (String, Option<Vec<String>>);

/// The mathematical value of a [`RawEntry`].
pub type RawEntryView = (Seq<char>, Option<Seq<Seq<char>>>);

pub open spec fn strings_view(v: Vec<String>) -> Seq<Seq<char>> {
    v@.map_values(|s: String| s@)
}

pub open spec fn raw_entries_view(raw: Seq<RawEntry>) -> Seq<RawEntryView> {
    raw.map_values(
        |e: RawEntry|
            (
                e.0@,
                match e.1 {
                    Some(v) => Some(strings_view(v)),
                    None => None,
                },
            ),
    )
}

/// The top-level entries of the YAML document `text`, in key order, each
/// with its value when that value is a list of strings; `None` when the text
/// is not a YAML document of that shape (a mapping with string keys, or no
/// mapping at all, which has no entries).
pub uninterp spec fn yaml_document_entries(text: Seq<char>) -> Option<Seq<RawEntryView>>;

/// Each key sorts before every later one: the entries are in ascending key
/// order, each key once.
pub open spec fn keys_ascending(raw: Seq<RawEntryView>) -> bool {
    forall|i: int, j: int| 0 <= i < j < raw.len() ==> seq_lt(#[trigger] raw[i].0, #[trigger] raw[j].0)
}

/// `serde_yaml::from_str` into an optional `BTreeMap<String, serde_yaml::Value>`
/// (a document with no mapping has no entries), each value then converted with
/// `serde_yaml::from_value::<Vec<String>>` (a value of another shape becomes
/// `None`). The contract names the result; on failure it carries the
/// library's error message.
#[verifier::external_body]
fn read_yaml_entries(text: &str) -> (r: Result<Vec<RawEntry>, String>)
    ensures
        match r {
            Ok(v) => yaml_document_entries(text@) == Some(raw_entries_view(v@)) && keys_ascending(
                raw_entries_view(v@),
            ),
            Err(_) => yaml_document_entries(text@) is None,
        },
{
    let raw: Option<std::collections::BTreeMap<String, serde_yaml::Value>> =
        serde_yaml::from_str(text).map_err(|e| e.to_string())?;
    Ok(raw.unwrap_or_default().into_iter().map(
        |(k, v)| (k, serde_yaml::from_value::<Vec<String>>(v).ok()),
    ).collect())
}

#[derive(Debug, Default)]
pub struct Config {
    /// Ecosystem key to targets (package names or image prefixes), in key
    /// order.
    pub entries: Vec<(String, Vec<String>)>,
    /// Keys whose value was not a list of targets (a scalar from a newer
    /// schema, or a typo), kept so the orchestrator can warn instead of the
    /// parse hard-failing.
    pub ignored: Vec<String>,
}

/// The mathematical value of a [`Config`].
pub struct ConfigView {
    pub entries: Seq<(Seq<char>, Seq<Seq<char>>)>,
    pub ignored: Seq<Seq<char>>,
}

impl View for Config {
    type V = ConfigView;

    open spec fn view(&self) -> ConfigView {
        ConfigView {
            entries: self.entries@.map_values(|e: (String, Vec<String>)| (e.0@, strings_view(e.1))),
            ignored: self.ignored@.map_values(|s: String| s@),
        }
    }
}

/// The entries whose value is a list of targets, in order.
pub open spec fn listed_entries(raw: Seq<RawEntryView>) -> Seq<(Seq<char>, Seq<Seq<char>>)>
    decreases raw.len(),
{
    if raw.len() == 0 {
        seq![]
    } else {
        let rest = listed_entries(raw.drop_last());
        match raw.last().1 {
            Some(t) => rest.push((raw.last().0, t)),
            None => rest,
        }
    }
}

/// The keys whose value is not a list of targets, in order.
pub open spec fn ignored_keys(raw: Seq<RawEntryView>) -> Seq<Seq<char>>
    decreases raw.len(),
{
    if raw.len() == 0 {
        seq![]
    } else {
        let rest = ignored_keys(raw.drop_last());
        match raw.last().1 {
            Some(_) => rest,
            None => rest.push(raw.last().0),
        }
    }
}

/// The config a document's entries make.
pub open spec fn spec_from_entries(raw: Seq<RawEntryView>) -> ConfigView {
    ConfigView { entries: listed_entries(raw), ignored: ignored_keys(raw) }
}

/// Why `.sync-branch-deps.yaml` could not be read.
#[derive(Debug)]
pub struct ConfigError {
    /// What the YAML reader said.
    pub detail: String,
}

impl ConfigError {
    pub open spec fn spec_message(&self) -> Seq<char> {
        "parsing .sync-branch-deps.yaml: "@ + self.detail@
    }

    /// The error as one line: what was being read, then why it failed.
    pub fn message(&self) -> (r: String)
        ensures
            r@ == self.spec_message(),
    {
        concat("parsing .sync-branch-deps.yaml: ", self.detail.as_str())
    }
}

impl Config {
    /// The targets listed under `key`, if it has a list.
    pub open spec fn spec_targets(self, key: Seq<char>) -> Option<Seq<Seq<char>>> {
        targets_of(self@.entries, key)
    }

    /// The config made of a document's entries: lists of targets are kept,
    /// every other key is set aside, both in the document's order.
    pub fn from_entries(raw: Vec<RawEntry>) -> (r: Config)
        ensures
            r@ == spec_from_entries(raw_entries_view(raw@)),
    {
        let mut entries: Vec<(String, Vec<String>)> = Vec::new();
        let mut ignored: Vec<String> = Vec::new();
        let ghost all = raw_entries_view(raw@);
        let mut raw = raw;
        let mut rev: Vec<RawEntry> = Vec::new();
        while raw.len() > 0
            invariant
                all == raw_entries_view(raw@) + raw_entries_view(rev@).reverse(),
            decreases raw.len(),
        {
            let ghost before = raw@;
            let e = raw.pop().unwrap();
            proof {
                assert(before == raw@.push(e));
                assert(raw_entries_view(rev@.push(e)).reverse() =~= seq![raw_entries_view(seq![e])[0]]
                    + raw_entries_view(rev@).reverse());
                assert(raw_entries_view(before) =~= raw_entries_view(raw@) + seq![raw_entries_view(seq![e])[0]]);
            }
            rev.push(e);
        }
        assert(raw_entries_view(raw@) =~= Seq::<RawEntryView>::empty());
        let ghost done: Seq<RawEntryView> = Seq::empty();
        assert(all =~= raw_entries_view(rev@).reverse());
        let ghost total = rev.len();
        while rev.len() > 0
            invariant
                all == done + raw_entries_view(rev@).reverse(),
                entries@.map_values(|e: (String, Vec<String>)| (e.0@, strings_view(e.1))) == listed_entries(done),
                ignored@.map_values(|s: String| s@) == ignored_keys(done),
            decreases rev.len(),
        {
            let ghost before = rev@;
            let e = rev.pop().unwrap();
            let ghost ev = raw_entries_view(seq![e])[0];
            proof {
                assert(before == rev@.push(e));
                assert(raw_entries_view(before).reverse() =~= seq![ev] + raw_entries_view(rev@).reverse());
                assert((done.push(ev)).drop_last() =~= done);
            }
            let (key, value) = e;
            match value {
                Some(targets) => {
                    entries.push((key, targets));
                },
                None => {
                    ignored.push(key);
                },
            }
            proof {
                done = done.push(ev);
                assert(entries@.map_values(|e: (String, Vec<String>)| (e.0@, strings_view(e.1)))
                    =~= listed_entries(done));
                assert(ignored@.map_values(|s: String| s@) =~= ignored_keys(done));
                assert(all =~= done + raw_entries_view(rev@).reverse());
            }
        }
        assert(done =~= all);
        Config { entries, ignored }
    }

    /// Parse the text of `.sync-branch-deps.yaml`. A document with no mapping
    /// (empty, whitespace-only, comment-only, or a bare `null`/`~`) is an empty
    /// config, not an error.
    pub fn parse(yaml: &str) -> (r: Result<Config, ConfigError>)
        ensures
            match yaml_document_entries(yaml@) {
                Some(raw) => r matches Ok(c) && c@ == spec_from_entries(raw),
                None => r is Err,
            },
    {
        match read_yaml_entries(yaml) {
            Ok(raw) => Ok(Config::from_entries(raw)),
            Err(detail) => Err(ConfigError { detail }),
        }
    }

    /// The targets listed under `key`, if it has a list.
    pub fn targets(&self, key: &str) -> (r: Option<&Vec<String>>)
        ensures
            match self.spec_targets(key@) {
                Some(t) => r matches Some(v) && strings_view(*v) == t,
                None => r is None,
            },
    {
        let mut i: usize = 0;
        assert(self@.entries.skip(0) == self@.entries);
        while i < self.entries.len()
            invariant
                i <= self.entries.len(),
                targets_of(self@.entries, key@) == targets_of(self@.entries.skip(i as int), key@),
            decreases self.entries.len() - i,
        {
            proof {
                assert(self@.entries.skip(i as int).drop_first() == self@.entries.skip(i + 1));
                assert(self@.entries.skip(i as int)[0] == self@.entries[i as int]);
            }
            if str_eq(self.entries[i].0.as_str(), key) {
                return Some(&self.entries[i].1);
            }
            i = i + 1;
        }
        None
    }
}

/// The targets of the first entry keyed `key`.
pub open spec fn targets_of(entries: Seq<(Seq<char>, Seq<Seq<char>>)>, key: Seq<char>) -> Option<Seq<Seq<char>>>
    decreases entries.len(),
{
    if entries.len() == 0 {
        None
    } else if entries[0].0 == key {
        Some(entries[0].1)
    } else {
        targets_of(entries.drop_first(), key)
    }
}

/// Every key of a document lands in exactly one place: a key whose value is a
/// list of targets among the entries, with that list; any other key among the
/// ignored. Nothing is dropped and nothing is invented.
pub proof fn lemma_config_partitions_keys(raw: Seq<RawEntryView>)
    ensures
        listed_entries(raw).len() + ignored_keys(raw).len() == raw.len(),
        forall|i: int|
            0 <= i < raw.len() && raw[i].1 is Some ==> listed_entries(raw).contains(
                (raw[i].0, raw[i].1->0),
            ),
        forall|i: int| 0 <= i < raw.len() && raw[i].1 is None ==> ignored_keys(raw).contains(raw[i].0),
        forall|j: int|
            0 <= j < listed_entries(raw).len() ==> exists|i: int|
                0 <= i < raw.len() && raw[i].1 == Some(#[trigger] listed_entries(raw)[j].1)
                    && raw[i].0 == listed_entries(raw)[j].0,
        forall|j: int|
            0 <= j < ignored_keys(raw).len() ==> exists|i: int|
                0 <= i < raw.len() && raw[i].1 is None && raw[i].0 == #[trigger] ignored_keys(raw)[j],
    decreases raw.len(),
{
    if raw.len() > 0 {
        let init = raw.drop_last();
        lemma_config_partitions_keys(init);
        let n = raw.len() - 1;
        assert forall|i: int|
            0 <= i < raw.len() && raw[i].1 is Some implies listed_entries(raw).contains(
                (raw[i].0, raw[i].1->0),
            ) by {
            if i < n {
                assert(raw[i] == init[i]);
                let k = choose|k: int| 0 <= k < listed_entries(init).len() && listed_entries(init)[k] == (init[i].0, init[i].1->0);
                assert(listed_entries(raw)[k] == listed_entries(init)[k]);
            } else {
                assert(listed_entries(raw).last() == (raw[i].0, raw[i].1->0));
            }
        }
        assert forall|i: int| 0 <= i < raw.len() && raw[i].1 is None implies ignored_keys(raw).contains(raw[i].0) by {
            if i < n {
                assert(raw[i] == init[i]);
                let k = choose|k: int| 0 <= k < ignored_keys(init).len() && ignored_keys(init)[k] == init[i].0;
                assert(ignored_keys(raw)[k] == ignored_keys(init)[k]);
            } else {
                assert(ignored_keys(raw).last() == raw[i].0);
            }
        }
        assert forall|j: int| 0 <= j < listed_entries(raw).len() implies exists|i: int|
            0 <= i < raw.len() && raw[i].1 == Some(#[trigger] listed_entries(raw)[j].1)
                && raw[i].0 == listed_entries(raw)[j].0 by {
            if j < listed_entries(init).len() {
                assert(listed_entries(raw)[j] == listed_entries(init)[j]);
                let i = choose|i: int| 0 <= i < init.len() && init[i].1 == Some(#[trigger] listed_entries(init)[j].1)
                    && init[i].0 == listed_entries(init)[j].0;
                assert(raw[i] == init[i]);
            } else {
                assert(raw[n].1 == Some(listed_entries(raw)[j].1));
            }
        }
        assert forall|j: int| 0 <= j < ignored_keys(raw).len() implies exists|i: int|
            0 <= i < raw.len() && raw[i].1 is None && raw[i].0 == #[trigger] ignored_keys(raw)[j] by {
            if j < ignored_keys(init).len() {
                assert(ignored_keys(raw)[j] == ignored_keys(init)[j]);
                let i = choose|i: int| 0 <= i < init.len() && init[i].1 is None && init[i].0 == #[trigger] ignored_keys(init)[j];
                assert(raw[i] == init[i]);
            } else {
                assert(raw[n].0 == ignored_keys(raw)[j]);
            }
        }
    }
}

/// A sequence of keys in ascending order, each key once.
pub open spec fn ascending(keys: Seq<Seq<char>>) -> bool {
    forall|i: int, j: int| 0 <= i < j < keys.len() ==> seq_lt(#[trigger] keys[i], #[trigger] keys[j])
}

/// A document read in key order yields its ignored keys sorted, and its
/// listed entries in key order too.
pub proof fn lemma_config_keys_ascending(raw: Seq<RawEntryView>)
    requires
        keys_ascending(raw),
    ensures
        ascending(ignored_keys(raw)),
        ascending(listed_entries(raw).map_values(|e: (Seq<char>, Seq<Seq<char>>)| e.0)),
    decreases raw.len(),
{
    if raw.len() > 0 {
        let init = raw.drop_last();
        let n = raw.len() - 1;
        assert forall|i: int, j: int| 0 <= i < j < init.len() implies seq_lt(#[trigger] init[i].0, #[trigger] init[j].0) by {
            assert(init[i] == raw[i] && init[j] == raw[j]);
        }
        lemma_config_keys_ascending(init);
        lemma_config_partitions_keys(init);
        let ig = ignored_keys(raw);
        let ig0 = ignored_keys(init);
        assert forall|a: int, b: int| 0 <= a < b < ig.len() implies seq_lt(#[trigger] ig[a], #[trigger] ig[b]) by {
            if b < ig0.len() {
                assert(ig[a] == ig0[a] && ig[b] == ig0[b]);
            } else {
                assert(ig[b] == raw[n].0);
                assert(ig[a] == ig0[a]);
                let k = choose|k: int| 0 <= k < init.len() && init[k].1 is None && init[k].0 == #[trigger] ig0[a];
                assert(raw[k] == init[k]);
            }
        }
        let le = listed_entries(raw);
        let le0 = listed_entries(init);
        let ks = le.map_values(|e: (Seq<char>, Seq<Seq<char>>)| e.0);
        let ks0 = le0.map_values(|e: (Seq<char>, Seq<Seq<char>>)| e.0);
        assert forall|a: int, b: int| 0 <= a < b < ks.len() implies seq_lt(#[trigger] ks[a], #[trigger] ks[b]) by {
            if b < ks0.len() {
                assert(le[a] == le0[a] && le[b] == le0[b]);
                assert(ks[a] == ks0[a] && ks[b] == ks0[b]);
            } else {
                assert(le[b].0 == raw[n].0);
                assert(le[a] == le0[a]);
                let k = choose|k: int| 0 <= k < init.len() && init[k].1 == Some(#[trigger] le0[a].1) && init[k].0 == le0[a].0;
                assert(raw[k] == init[k]);
            }
        }
    }
}

} // verus!
