//! sync-branch-deps: resolve cross-repo feature-branch dependencies and pin
//! a repo's manifests to the matching pre-release artifacts.

pub mod cli;
pub mod config;
pub mod git;
pub mod json;
pub mod json_text;
pub mod reporters;
pub mod resolvers;
pub mod rewriters;
pub mod slug;
pub mod text;
pub mod workspace;

use vstd::prelude::*;

use crate::config::{
    lemma_config_partitions_keys, raw_entries_view, spec_from_entries, strings_view, yaml_document_entries, Config,
    ConfigView, CONFIG_FILE,
};
use crate::reporters::{Level, Location};
use crate::resolvers::{for_key, spec_for_key, AnyResolver, Resolver};
use crate::rewriters::{for_kind, pins_view, spec_for_kind, AnyRewriter, Pin, PinView, Rewriter};
use crate::slug::{is_default_branch, sanitize, spec_is_default_branch, spec_sanitize};
use crate::text::{concat, str_eq};
use crate::workspace::{SbdError, SbdErrorView, Workspace, WorkspaceView};

verus! {

broadcast use vstd::string::group_string_axioms;

/// A line of progress to report, with the place it is about when it is a
/// finding.
pub struct Event {
    pub level: Level,
    pub location: Option<Location>,
    pub message: String,
}

/// The mathematical value of an [`Event`].
pub struct EventView {
    pub level: Level,
    pub location: Option<(Seq<char>, Option<usize>)>,
    pub message: Seq<char>,
}

impl View for Event {
    type V = EventView;

    open spec fn view(&self) -> EventView {
        EventView {
            level: self.level,
            location: match self.location {
                Some(l) => Some((l.file@, l.line)),
                None => None,
            },
            message: self.message@,
        }
    }
}

pub open spec fn events_view(events: Seq<Event>) -> Seq<EventView> {
    events.map_values(|e: Event| e@)
}

/// An event about no place in particular.
pub open spec fn note(level: Level, message: Seq<char>) -> EventView {
    EventView { level, location: None, message }
}

fn push_event(events: &mut Vec<Event>, level: Level, message: String)
    ensures
        events_view(final(events)@) == events_view(old(events)@).push(note(level, message@)),
{
    events.push(Event { level, location: None, message });
    assert(events_view(events@) =~= events_view(old(events)@).push(note(level, message@)));
}

/// The warnings for the keys whose value is not a list of targets.
pub open spec fn ignored_warnings(keys: Seq<Seq<char>>) -> Seq<EventView>
    decreases keys.len(),
{
    if keys.len() == 0 {
        seq![]
    } else {
        ignored_warnings(keys.drop_last()).push(note(Level::Warn, keys.last() + ": not a list of targets — ignoring"@))
    }
}

/// Reading `.sync-branch-deps.yaml`: the events it reports, and the config
/// (`Some(None)` when the file is absent, with a note; `None` when the file is
/// not a YAML mapping). Each key whose value is not a list of targets is
/// warned about.
pub open spec fn spec_load_config(text: Option<Seq<char>>) -> (Seq<EventView>, Option<Option<ConfigView>>) {
    match text {
        None => (seq![note(Level::Info, CONFIG_FILE@ + " absent — nothing to do"@)], Some(None)),
        Some(t) => match yaml_document_entries(t) {
            None => (seq![], None),
            Some(raw) => (ignored_warnings(spec_from_entries(raw).ignored), Some(Some(spec_from_entries(raw)))),
        },
    }
}

/// Load the config text of a workspace, reporting what was found.
fn load_config(config: &Option<String>, events: &mut Vec<Event>) -> (r: Result<Option<Config>, SbdError>)
    ensures
        ({
            let (evs, cfg) = spec_load_config(crate::workspace::opt_text(*config));
            &&& events_view(final(events)@) == events_view(old(events)@) + evs
            &&& match cfg {
                None => r matches Err(e) && e is Config,
                Some(None) => r matches Ok(c) && c is None,
                Some(Some(v)) => r matches Ok(c) && c matches Some(cc) && cc@ == v,
            }
        }),
{
    let text = match config {
        None => {
            push_event(events, Level::Info, concat(CONFIG_FILE, " absent — nothing to do"));
            assert(events_view(events@) =~= events_view(old(events)@) + seq![
                note(Level::Info, CONFIG_FILE@ + " absent — nothing to do"@),
            ]);
            return Ok(None);
        },
        Some(t) => t,
    };
    let config = match Config::parse(text.as_str()) {
        Ok(c) => c,
        Err(e) => {
            assert(events_view(events@) =~= events_view(old(events)@) + Seq::<EventView>::empty());
            return Err(SbdError::Config(e));
        },
    };
    let ghost keys = config@.ignored;
    let mut i: usize = 0;
    while i < config.ignored.len()
        invariant
            i <= config.ignored.len(),
            keys == config@.ignored,
            events_view(events@) == events_view(old(events)@) + ignored_warnings(keys.take(i as int)),
        decreases config.ignored.len() - i,
    {
        proof {
            assert(keys.take(i + 1).drop_last() =~= keys.take(i as int));
            assert(keys.take(i + 1).last() == config.ignored@[i as int]@);
        }
        push_event(events, Level::Warn, concat(config.ignored[i].as_str(), ": not a list of targets — ignoring"));
        i = i + 1;
        assert(events_view(events@) =~= events_view(old(events)@) + ignored_warnings(keys.take(i as int)));
    }
    assert(keys.take(config.ignored.len() as int) == keys);
    Ok(Some(config))
}

/// A unit of the `verify` pass: a key no resolver handles, or a target to
/// check with one rewriter.
pub enum Check {
    UnknownKey(String),
    Target { rewriter: AnyRewriter, target: String },
}

/// The mathematical value of a [`Check`].
pub enum CheckView {
    UnknownKey(Seq<char>),
    Target { rewriter: AnyRewriter, target: Seq<char> },
}

impl View for Check {
    type V = CheckView;

    open spec fn view(&self) -> CheckView {
        match self {
            Check::UnknownKey(k) => CheckView::UnknownKey(k@),
            Check::Target { rewriter, target } => CheckView::Target { rewriter: *rewriter, target: target@ },
        }
    }
}

pub open spec fn checks_view(checks: Seq<Check>) -> Seq<CheckView> {
    checks.map_values(|c: Check| c@)
}

/// Each target checked with each rewriter, target by target.
pub open spec fn target_checks(targets: Seq<Seq<char>>, rewriters: Seq<AnyRewriter>) -> Seq<CheckView>
    decreases targets.len(),
{
    if targets.len() == 0 {
        seq![]
    } else {
        target_checks(targets.drop_last(), rewriters) + rewriters.map_values(
            |rw: AnyRewriter| CheckView::Target { rewriter: rw, target: targets.last() },
        )
    }
}

/// The checks of one config entry: its targets with every rewriter of its
/// resolver's kind, or a warning when no resolver handles the key.
pub open spec fn entry_checks(key: Seq<char>, targets: Seq<Seq<char>>) -> Seq<CheckView> {
    match spec_for_key(key) {
        None => seq![CheckView::UnknownKey(key)],
        Some(r) => target_checks(targets, spec_for_kind(r.spec_kind())),
    }
}

/// The checks of a config, entry by entry.
pub open spec fn config_checks(entries: Seq<(Seq<char>, Seq<Seq<char>>)>) -> Seq<CheckView>
    decreases entries.len(),
{
    if entries.len() == 0 {
        seq![]
    } else {
        config_checks(entries.drop_last()) + entry_checks(entries.last().0, entries.last().1)
    }
}

fn push_target_checks(out: &mut Vec<Check>, target: &String, rewriters: &Vec<AnyRewriter>)
    ensures
        checks_view(final(out)@) == checks_view(old(out)@) + rewriters@.map_values(
            |rw: AnyRewriter| CheckView::Target { rewriter: rw, target: target@ },
        ),
{
    let mut j: usize = 0;
    while j < rewriters.len()
        invariant
            j <= rewriters.len(),
            checks_view(out@) == checks_view(old(out)@) + rewriters@.take(j as int).map_values(
                |rw: AnyRewriter| CheckView::Target { rewriter: rw, target: target@ },
            ),
        decreases rewriters.len() - j,
    {
        let ghost before = out@;
        out.push(Check::Target { rewriter: rewriters[j], target: target.clone() });
        proof {
            assert(rewriters@.take(j + 1) =~= rewriters@.take(j as int).push(rewriters@[j as int]));
            assert(checks_view(out@) =~= checks_view(before).push(CheckView::Target { rewriter: rewriters@[j as int], target: target@ }));
        }
        j = j + 1;
        proof {
            assert(rewriters@.take(j as int).map_values(|rw: AnyRewriter| CheckView::Target { rewriter: rw, target: target@ })
                =~= rewriters@.take(j - 1).map_values(|rw: AnyRewriter| CheckView::Target { rewriter: rw, target: target@ }).push(
                CheckView::Target { rewriter: rewriters@[j - 1], target: target@ }));
        }
    }
    assert(rewriters@.take(rewriters.len() as int) == rewriters@);
}

/// The checks `verify` runs for a config, in order.
pub fn plan_checks(config: &Config) -> (r: Vec<Check>)
    ensures
        checks_view(r@) == config_checks(config@.entries),
{
    let ghost entries = config@.entries;
    let mut out: Vec<Check> = Vec::new();
    let mut i: usize = 0;
    while i < config.entries.len()
        invariant
            i <= config.entries.len(),
            entries == config@.entries,
            checks_view(out@) == config_checks(entries.take(i as int)),
        decreases config.entries.len() - i,
    {
        let key = &config.entries[i].0;
        let targets = &config.entries[i].1;
        proof {
            assert(entries.take(i + 1).drop_last() =~= entries.take(i as int));
            assert(entries.take(i + 1).last() == (key@, strings_view(*targets)));
        }
        let ghost before = checks_view(out@);
        match for_key(key.as_str()) {
            None => {
                out.push(Check::UnknownKey(key.clone()));
                assert(checks_view(out@) =~= before + seq![CheckView::UnknownKey(key@)]);
            },
            Some(resolver) => {
                let rewriters = for_kind(resolver.kind());
                let ghost tv = strings_view(*targets);
                let mut t: usize = 0;
                while t < targets.len()
                    invariant
                        t <= targets.len(),
                        tv == strings_view(*targets),
                        rewriters@ == spec_for_kind(resolver.spec_kind()),
                        checks_view(out@) == before + target_checks(tv.take(t as int), rewriters@),
                    decreases targets.len() - t,
                {
                    proof {
                        assert(tv.take(t + 1).drop_last() =~= tv.take(t as int));
                        assert(tv.take(t + 1).last() == targets@[t as int]@);
                    }
                    push_target_checks(&mut out, &targets[t], &rewriters);
                    t = t + 1;
                }
                assert(tv.take(targets.len() as int) == tv);
            },
        }
        i = i + 1;
    }
    assert(entries.take(config.entries.len() as int) == entries);
    out
}

/// The message a branch pin is reported with.
pub open spec fn pin_message(reference: Seq<char>) -> Seq<char> {
    "branch/pre-release pin must be reverted before merge: "@ + reference
}

/// The located error events for pins.
pub open spec fn pin_events(pins: Seq<PinView>) -> Seq<EventView>
    decreases pins.len(),
{
    if pins.len() == 0 {
        seq![]
    } else {
        pin_events(pins.drop_last()).push(
            EventView {
                level: Level::Error,
                location: Some((pins.last().file, match pins.last().line {
                    Some(n) => Some(n as usize),
                    None => None,
                })),
                message: pin_message(pins.last().reference),
            },
        )
    }
}

/// Running the `verify` checks on a workspace: the events reported, and whether
/// it is clean (`None` when a manifest cannot be read, which stops `verify`).
pub open spec fn run_checks(ws: WorkspaceView, checks: Seq<CheckView>) -> (Seq<EventView>, Option<bool>)
    decreases checks.len(),
{
    if checks.len() == 0 {
        (seq![], Some(true))
    } else {
        let (evs, clean) = run_checks(ws, checks.drop_last());
        match clean {
            None => (evs, None),
            Some(c) => match checks.last() {
                CheckView::UnknownKey(k) => (evs.push(note(Level::Warn, k + ": no resolver for this key — skipping"@)), Some(c)),
                CheckView::Target { rewriter, target } => match rewriter.spec_find_branch_pin(ws, target) {
                    None => (evs, None),
                    Some(pins) => (evs + pin_events(pins), Some(c && pins.len() == 0)),
                },
            },
        }
    }
}

/// The whole `verify` pass on a workspace: the events, and whether it is clean (`None`
/// when the config or a manifest cannot be read).
pub open spec fn spec_verify(ws: WorkspaceView) -> (Seq<EventView>, Option<bool>) {
    let (evs0, cfg) = spec_load_config(ws.config);
    match cfg {
        None => (evs0, None),
        Some(None) => (evs0, Some(true)),
        Some(Some(c)) => {
            let (evs1, clean) = run_checks(ws, config_checks(c.entries));
            match clean {
                None => (evs0 + evs1, None),
                Some(true) => (evs0 + evs1 + seq![note(Level::Info, "no branch pins found"@)], Some(true)),
                Some(false) => (evs0 + evs1, Some(false)),
            }
        },
    }
}

/// The report of a `verify` run: what to show, and the verdict (`Ok(true)`
/// when clean).
pub struct VerifyReport {
    pub events: Vec<Event>,
    pub result: Result<bool, SbdError>,
}

fn push_pin_events(events: &mut Vec<Event>, pins: Vec<Pin>)
    ensures
        events_view(final(events)@) == events_view(old(events)@) + pin_events(pins_view(pins@)),
{
    let ghost pv = pins_view(pins@);
    let mut i: usize = 0;
    while i < pins.len()
        invariant
            i <= pins.len(),
            pv == pins_view(pins@),
            events_view(events@) == events_view(old(events)@) + pin_events(pv.take(i as int)),
        decreases pins.len() - i,
    {
        let pin = &pins[i];
        proof {
            assert(pv.take(i + 1).drop_last() =~= pv.take(i as int));
            assert(pv.take(i + 1).last() == pin@);
        }
        let message = concat("branch/pre-release pin must be reverted before merge: ", pin.reference.as_str());
        let ghost before = events@;
        events.push(Event {
            level: Level::Error,
            location: Some(Location { file: pin.file.clone(), line: pin.line }),
            message,
        });
        i = i + 1;
        proof {
            assert(events_view(events@) =~= events_view(before).push(events@.last()@));
            assert(events_view(events@) =~= events_view(old(events)@) + pin_events(pv.take(i as int)));
        }
    }
    assert(pv.take(pins.len() as int) == pv);
}

/// The PR check: scan the manifests for any branch / pre-release pin of a
/// declared coordinate, reporting each as a located error. The verdict is
/// `Ok(true)` when clean; with no config there is nothing to check.
pub fn verify(ws: &Workspace) -> (r: VerifyReport)
    ensures
        ({
            let (evs, clean) = spec_verify(ws@);
            &&& events_view(r.events@) == evs
            &&& match clean {
                Some(c) => r.result matches Ok(b) && b == c,
                None => r.result matches Err(e) && if spec_load_config(ws@.config).1 is None {
                    e is Config
                } else {
                    e is Manifest
                },
            }
        }),
{
    let mut events: Vec<Event> = Vec::new();
    assert(events_view(events@) =~= Seq::<EventView>::empty());
    let config = match load_config(&ws.config, &mut events) {
        Err(e) => {
            assert(events_view(events@) =~= spec_verify(ws@).0);
            return VerifyReport { events, result: Err(e) };
        },
        Ok(None) => {
            assert(events_view(events@) =~= spec_verify(ws@).0);
            return VerifyReport { events, result: Ok(true) };
        },
        Ok(Some(c)) => c,
    };
    let ghost evs0 = events_view(events@);
    let checks = plan_checks(&config);
    let ghost cv = checks_view(checks@);
    assert(spec_load_config(crate::workspace::opt_text(ws.config)) == (evs0, Some(Some(config@))));
    let mut clean = true;
    let mut k: usize = 0;
    while k < checks.len()
        invariant
            k <= checks.len(),
            cv == checks_view(checks@),
            cv == config_checks(config@.entries),
            spec_load_config(crate::workspace::opt_text(ws.config)) == (evs0, Some(Some(config@))),
            run_checks(ws@, cv.take(k as int)) == (events_view(events@).skip(evs0.len() as int), Some(clean)),
            events_view(events@).take(evs0.len() as int) == evs0,
            evs0.len() <= events@.len(),
        decreases checks.len() - k,
    {
        proof {
            assert(cv.take(k + 1).drop_last() =~= cv.take(k as int));
            assert(cv.take(k + 1).last() == checks@[k as int]@);
        }
        let ghost before = events_view(events@);
        match &checks[k] {
            Check::UnknownKey(key) => {
                push_event(&mut events, Level::Warn, concat(key.as_str(), ": no resolver for this key — skipping"));
                proof {
                    assert(events_view(events@).skip(evs0.len() as int) =~= before.skip(evs0.len() as int).push(
                        note(Level::Warn, key@ + ": no resolver for this key — skipping"@),
                    ));
                    assert(events_view(events@).take(evs0.len() as int) =~= before.take(evs0.len() as int));
                }
            },
            Check::Target { rewriter, target } => {
                match rewriter.find_branch_pin(ws, target.as_str()) {
                    Err(e) => {
                        proof {
                            assert(run_checks(ws@, cv.take(k + 1)).1 is None);
                            lemma_run_checks_stops(ws@, cv, k + 1);
                            assert(cv.take(cv.len() as int) == cv);
                            assert(events_view(events@) =~= evs0 + events_view(events@).skip(evs0.len() as int));
                            lemma_stopped_events(ws@, cv, k + 1);
                        }
                        return VerifyReport { events, result: Err(e) };
                    },
                    Ok(pins) => {
                        if pins.len() > 0 {
                            clean = false;
                        }
                        push_pin_events(&mut events, pins);
                        proof {
                            assert(events_view(events@).skip(evs0.len() as int) =~= before.skip(evs0.len() as int)
                                + events_view(events@).skip(before.len() as int));
                            assert(events_view(events@).take(evs0.len() as int) =~= before.take(evs0.len() as int));
                        }
                    },
                }
            },
        }
        k = k + 1;
    }
    proof {
        assert(cv.take(checks.len() as int) == cv);
        assert(events_view(events@) =~= evs0 + events_view(events@).skip(evs0.len() as int));
    }
    if clean {
        push_event(&mut events, Level::Info, String::from_str("no branch pins found"));
    }
    VerifyReport { events, result: Ok(clean) }
}

/// Once a check stops `verify`, later checks add nothing.
proof fn lemma_run_checks_stops(ws: WorkspaceView, checks: Seq<CheckView>, k: int)
    requires
        0 <= k <= checks.len(),
        run_checks(ws, checks.take(k)).1 is None,
    ensures
        run_checks(ws, checks) == run_checks(ws, checks.take(k)),
    decreases checks.len() - k,
{
    if k < checks.len() {
        assert(checks.take(k + 1).drop_last() =~= checks.take(k));
        lemma_run_checks_stops(ws, checks, k + 1);
    } else {
        assert(checks.take(k) == checks);
    }
}

proof fn lemma_stopped_events(ws: WorkspaceView, checks: Seq<CheckView>, k: int)
    requires
        0 <= k <= checks.len(),
        run_checks(ws, checks.take(k)).1 is None,
    ensures
        run_checks(ws, checks).0 == run_checks(ws, checks.take(k)).0,
{
    lemma_run_checks_stops(ws, checks, k);
}

/// What a registry lookup for a target gave.
pub enum Lookup {
    /// A branch artifact exists; carries the resolved version or tag.
    Found(String),
    /// No branch artifact: a miss, skipped quietly.
    Missing,
    /// The lookup itself failed (network, auth): a hard error.
    Failed(String),
}

/// The mathematical value of a [`Lookup`].
pub enum LookupView {
    Found(Seq<char>),
    Missing,
    Failed(Seq<char>),
}

impl View for Lookup {
    type V = LookupView;

    open spec fn view(&self) -> LookupView {
        match self {
            Lookup::Found(id) => LookupView::Found(id@),
            Lookup::Missing => LookupView::Missing,
            Lookup::Failed(cause) => LookupView::Failed(cause@),
        }
    }
}

/// A unit of a `sync` run: a key no resolver handles, or a target to resolve
/// and pin.
pub enum SyncJob {
    UnknownKey(String),
    Resolve { resolver: AnyResolver, target: String },
}

/// The mathematical value of a [`SyncJob`].
pub enum SyncJobView {
    UnknownKey(Seq<char>),
    Resolve { resolver: AnyResolver, target: Seq<char> },
}

impl View for SyncJob {
    type V = SyncJobView;

    open spec fn view(&self) -> SyncJobView {
        match self {
            SyncJob::UnknownKey(k) => SyncJobView::UnknownKey(k@),
            SyncJob::Resolve { resolver, target } => SyncJobView::Resolve { resolver: *resolver, target: target@ },
        }
    }
}

pub open spec fn jobs_view(jobs: Seq<SyncJob>) -> Seq<SyncJobView> {
    jobs.map_values(|j: SyncJob| j@)
}

/// The jobs of one config entry: each target with the entry's resolver, or a
/// warning when no resolver handles the key.
pub open spec fn entry_jobs(key: Seq<char>, targets: Seq<Seq<char>>) -> Seq<SyncJobView> {
    match spec_for_key(key) {
        None => seq![SyncJobView::UnknownKey(key)],
        Some(r) => targets.map_values(|t: Seq<char>| SyncJobView::Resolve { resolver: r, target: t }),
    }
}

/// The jobs of a config, entry by entry.
pub open spec fn config_jobs(entries: Seq<(Seq<char>, Seq<Seq<char>>)>) -> Seq<SyncJobView>
    decreases entries.len(),
{
    if entries.len() == 0 {
        seq![]
    } else {
        config_jobs(entries.drop_last()) + entry_jobs(entries.last().0, entries.last().1)
    }
}

/// The jobs a `sync` run works through for a config, in order.
pub fn plan_jobs(config: &Config) -> (r: Vec<SyncJob>)
    ensures
        jobs_view(r@) == config_jobs(config@.entries),
{
    let ghost entries = config@.entries;
    let mut out: Vec<SyncJob> = Vec::new();
    let mut i: usize = 0;
    while i < config.entries.len()
        invariant
            i <= config.entries.len(),
            entries == config@.entries,
            jobs_view(out@) == config_jobs(entries.take(i as int)),
        decreases config.entries.len() - i,
    {
        let key = &config.entries[i].0;
        let targets = &config.entries[i].1;
        proof {
            assert(entries.take(i + 1).drop_last() =~= entries.take(i as int));
            assert(entries.take(i + 1).last() == (key@, strings_view(*targets)));
        }
        let ghost before = jobs_view(out@);
        match for_key(key.as_str()) {
            None => {
                out.push(SyncJob::UnknownKey(key.clone()));
                assert(jobs_view(out@) =~= before + seq![SyncJobView::UnknownKey(key@)]);
            },
            Some(resolver) => {
                let ghost tv = strings_view(*targets);
                let mut t: usize = 0;
                while t < targets.len()
                    invariant
                        t <= targets.len(),
                        tv == strings_view(*targets),
                        jobs_view(out@) == before + tv.take(t as int).map_values(
                            |x: Seq<char>| SyncJobView::Resolve { resolver: resolver, target: x },
                        ),
                    decreases targets.len() - t,
                {
                    let ghost b2 = out@;
                    out.push(SyncJob::Resolve { resolver, target: targets[t].clone() });
                    proof {
                        assert(tv.take(t + 1) =~= tv.take(t as int).push(targets@[t as int]@));
                        assert(jobs_view(out@) =~= jobs_view(b2).push(SyncJobView::Resolve { resolver, target: targets@[t as int]@ }));
                        assert(tv.take(t + 1).map_values(|x: Seq<char>| SyncJobView::Resolve { resolver: resolver, target: x })
                            =~= tv.take(t as int).map_values(|x: Seq<char>| SyncJobView::Resolve { resolver: resolver, target: x }).push(
                            SyncJobView::Resolve { resolver, target: targets@[t as int]@ }));
                    }
                    t = t + 1;
                }
                assert(tv.take(targets.len() as int) == tv);
            },
        }
        i = i + 1;
    }
    assert(entries.take(config.entries.len() as int) == entries);
    out
}

/// Why a `sync` run failed, as far as the library decides it: the config or a
/// manifest could not be read, or a lookup failed for a target.
pub enum Failure {
    Config,
    Manifest,
    Lookup { target: Seq<char>, cause: Seq<char> },
}

pub open spec fn failure_of(e: SbdErrorView) -> Failure {
    match e {
        SbdErrorView::Config(_) => Failure::Config,
        SbdErrorView::Manifest { .. } => Failure::Manifest,
        SbdErrorView::Lookup { target, cause } => Failure::Lookup { target, cause },
    }
}

/// The state of a `sync` run.
pub struct SyncState {
    /// The workspace as rewritten so far.
    pub ws: WorkspaceView,
    /// What has been reported so far.
    pub events: Seq<EventView>,
    pub slug: Seq<char>,
    pub dry_run: bool,
    pub jobs: Seq<SyncJobView>,
    /// The index of the next job.
    pub next: int,
    /// `Some` once the run is over.
    pub outcome: Option<Result<(), Failure>>,
}

/// The no-op note on a default branch (`unknown` when no branch is known).
pub open spec fn noop_message(branch: Seq<char>) -> Seq<char> {
    "on "@ + (if branch.len() == 0 {
        "unknown"@
    } else {
        branch
    }) + " — no-op (branch deps resolve off feature branches only)"@
}

/// How a `sync` run starts: on the default branch, a detached `HEAD` or with
/// no branch it is a no-op; otherwise it reports the branch and its slug,
/// reads the config, and lines up a job per target (or unknown key).
pub open spec fn spec_start(ws: WorkspaceView, branch: Seq<char>, default_branch: Seq<char>, dry_run: bool) -> SyncState {
    if spec_is_default_branch(branch, default_branch) {
        SyncState {
            ws,
            events: seq![note(Level::Info, noop_message(branch))],
            slug: Seq::empty(),
            dry_run,
            jobs: seq![],
            next: 0,
            outcome: Some(Ok(())),
        }
    } else {
        let slug = spec_sanitize(branch);
        let ev = note(Level::Info, "branch="@ + branch + " sanitized="@ + slug);
        let (evs, cfg) = spec_load_config(ws.config);
        let base = SyncState { ws, events: seq![ev] + evs, slug, dry_run, jobs: seq![], next: 0, outcome: Some(Ok(())) };
        match cfg {
            None => SyncState { outcome: Some(Err(Failure::Config)), ..base },
            Some(None) => base,
            Some(Some(c)) => SyncState { jobs: config_jobs(c.entries), outcome: None, ..base },
        }
    }
}

/// Whether the run waits for a lookup of its next job.
pub open spec fn awaiting(s: SyncState) -> bool {
    s.outcome is None && 0 <= s.next < s.jobs.len() && s.jobs[s.next] is Resolve
}

/// The run moved past the jobs that need no lookup (warning about each
/// unknown key) up to the next target, or to its end.
pub open spec fn spec_advance(s: SyncState) -> SyncState
    decreases s.jobs.len() - s.next,
{
    if s.outcome is Some || s.next < 0 {
        s
    } else if s.next >= s.jobs.len() {
        SyncState { outcome: Some(Ok(())), ..s }
    } else {
        match s.jobs[s.next] {
            SyncJobView::UnknownKey(k) => spec_advance(
                SyncState {
                    events: s.events.push(note(Level::Warn, k + ": no resolver for this key — skipping"@)),
                    next: s.next + 1,
                    ..s
                },
            ),
            SyncJobView::Resolve { .. } => s,
        }
    }
}

/// The rewriters applied in order: the workspace after them, and whether any
/// changed it (`None` once one cannot read its manifest; the workspace then
/// holds what the rewriters before it wrote).
pub open spec fn apply_rewriters(ws: WorkspaceView, rewriters: Seq<AnyRewriter>, target: Seq<char>, slug: Seq<char>) -> (WorkspaceView, Option<bool>)
    decreases rewriters.len(),
{
    if rewriters.len() == 0 {
        (ws, Some(false))
    } else {
        let (w, c) = apply_rewriters(ws, rewriters.drop_last(), target, slug);
        match c {
            None => (w, None),
            Some(changed) => match rewriters.last().spec_rewrite(w, target, slug) {
                None => (w, None),
                Some((w2, ch)) => (w2, Some(changed || ch)),
            },
        }
    }
}

pub open spec fn pinned_message(target: Seq<char>, slug: Seq<char>, id: Seq<char>, dry_run: bool) -> Seq<char> {
    target + (if dry_run {
        ": would pin to '"@
    } else {
        ": pinned to '"@
    }) + slug + "' (resolved "@ + id + ")"@
}

pub open spec fn already_message(target: Seq<char>, slug: Seq<char>) -> Seq<char> {
    target + ": already at '"@ + slug + "'"@
}

pub open spec fn miss_message(target: Seq<char>, slug: Seq<char>) -> Seq<char> {
    target + ": no '"@ + slug + "' — skipping"@
}

/// The run after the lookup of its awaited target: a miss is noted and
/// skipped; a failed lookup ends the run with that failure; a found artifact
/// is reported (with `dry_run`, as what would be pinned, touching nothing) or
/// pinned by every rewriter of the resolver's kind, then reported as pinned
/// or as already there. A run that awaits no lookup is left as it is.
pub open spec fn spec_feed(s: SyncState, lookup: LookupView) -> SyncState {
    if !awaiting(s) {
        s
    } else {
        let (resolver, target) = match s.jobs[s.next] {
            SyncJobView::Resolve { resolver, target } => (resolver, target),
            SyncJobView::UnknownKey(k) => (arbitrary(), k),
        };
        let done = SyncState { next: s.next + 1, ..s };
        match lookup {
            LookupView::Missing => SyncState { events: s.events.push(note(Level::Info, miss_message(target, s.slug))), ..done },
            LookupView::Failed(cause) => SyncState { outcome: Some(Err(Failure::Lookup { target, cause })), ..done },
            LookupView::Found(id) => if s.dry_run {
                SyncState { events: s.events.push(note(Level::Notice, pinned_message(target, s.slug, id, true))), ..done }
            } else {
                let (w, changed) = apply_rewriters(s.ws, spec_for_kind(resolver.spec_kind()), target, s.slug);
                match changed {
                    None => SyncState { ws: w, outcome: Some(Err(Failure::Manifest)), ..done },
                    Some(true) => SyncState {
                        ws: w,
                        events: s.events.push(note(Level::Notice, pinned_message(target, s.slug, id, false))),
                        ..done
                    },
                    Some(false) => SyncState {
                        ws: w,
                        events: s.events.push(note(Level::Info, already_message(target, s.slug))),
                        ..done
                    },
                }
            },
        }
    }
}

/// A registry question a `sync` run asks: does `target` have a branch
/// artifact for `slug`, according to `resolver`?
pub struct LookupRequest {
    pub resolver: AnyResolver,
    pub target: String,
    pub slug: String,
}

/// A `sync` run: the caller asks the registry what [`SyncRun::next_lookup`]
/// names and hands the answer to [`SyncRun::feed`], until no lookup is left.
pub struct SyncRun {
    workspace: Workspace,
    events: Vec<Event>,
    slug: String,
    dry_run: bool,
    jobs: Vec<SyncJob>,
    next: usize,
    outcome: Option<Result<(), SbdError>>,
}

pub open spec fn outcome_view(o: Option<Result<(), SbdError>>) -> Option<Result<(), Failure>> {
    match o {
        None => None,
        Some(Ok(())) => Some(Ok(())),
        Some(Err(e)) => Some(Err(failure_of(e@))),
    }
}

impl View for SyncRun {
    type V = SyncState;

    closed spec fn view(&self) -> SyncState {
        SyncState {
            ws: self.workspace@,
            events: events_view(self.events@),
            slug: self.slug@,
            dry_run: self.dry_run,
            jobs: jobs_view(self.jobs@),
            next: self.next as int,
            outcome: outcome_view(self.outcome),
        }
    }
}

/// Start resolving and pinning branch dependencies for the workspace, given
/// the current `branch`. On the default branch, a detached `HEAD`, or with no
/// config the run is a no-op. With `dry_run`, it reports what it would pin
/// without rewriting anything.
pub fn sync(workspace: Workspace, branch: &str, default_branch: &str, dry_run: bool) -> (r: SyncRun)
    ensures
        r@ == spec_start(workspace@, branch@, default_branch@, dry_run),
{
    let mut events: Vec<Event> = Vec::new();
    if is_default_branch(branch, default_branch) {
        let shown = if branch.is_empty() {
            "unknown"
        } else {
            branch
        };
        let mut m = concat("on ", shown);
        m.append(" — no-op (branch deps resolve off feature branches only)");
        push_event(&mut events, Level::Info, m);
        let r = SyncRun {
            workspace,
            events,
            slug: String::new(),
            dry_run,
            jobs: Vec::new(),
            next: 0,
            outcome: Some(Ok(())),
        };
        assert(r@.events =~= seq![note(Level::Info, noop_message(branch@))]);
        assert(r@.jobs =~= Seq::<SyncJobView>::empty());
        return r;
    }
    let slug = sanitize(branch);
    let mut m = concat("branch=", branch);
    m.append(" sanitized=");
    m.append(slug.as_str());
    push_event(&mut events, Level::Info, m);
    let ghost ev0 = events_view(events@);
    let loaded = load_config(&workspace.config, &mut events);
    let (jobs, outcome) = match loaded {
        Err(e) => (Vec::new(), Some(Err(e))),
        Ok(None) => (Vec::new(), Some(Ok(()))),
        Ok(Some(config)) => (plan_jobs(&config), None),
    };
    let r = SyncRun { workspace, events, slug, dry_run, jobs, next: 0, outcome };
    proof {
        assert(ev0 =~= seq![note(Level::Info, "branch="@ + branch@ + " sanitized="@ + spec_sanitize(branch@))]);
        if r@.outcome is Some {
            assert(r@.jobs =~= Seq::<SyncJobView>::empty());
        }
    }
    r
}

impl SyncRun {
    /// Move past the jobs that need no lookup, up to the next target or the
    /// end of the run.
    fn advance(&mut self)
        ensures
            final(self)@ == spec_advance(old(self)@),
    {
        loop
            invariant
                spec_advance(old(self)@) == spec_advance(self@),
            ensures
                spec_advance(old(self)@) == self@,
            decreases self.jobs.len() - self.next,
        {
            if self.outcome.is_some() {
                return;
            }
            if self.next >= self.jobs.len() {
                self.outcome = Some(Ok(()));
                return;
            }
            let ghost before = self@;
            match &self.jobs[self.next] {
                SyncJob::UnknownKey(k) => {
                    let message = concat(k.as_str(), ": no resolver for this key — skipping");
                    push_event(&mut self.events, Level::Warn, message);
                    self.next = self.next + 1;
                    proof {
                        assert(before.jobs[before.next] == self.jobs@[before.next]@);
                    }
                },
                SyncJob::Resolve { .. } => {
                    proof {
                        assert(before.jobs[before.next] == self.jobs@[before.next]@);
                    }
                    return;
                },
            }
        }
    }

    /// The next registry question of the run, or `None` when the run is over.
    pub fn next_lookup(&mut self) -> (r: Option<LookupRequest>)
        ensures
            final(self)@ == spec_advance(old(self)@),
            awaiting(final(self)@) <==> r is Some,
            r matches Some(q) ==> (match final(self)@.jobs[final(self)@.next] {
                SyncJobView::Resolve { resolver, target } => q.resolver == resolver && q.target@ == target
                    && q.slug@ == final(self)@.slug,
                _ => false,
            }),
    {
        self.advance();
        if self.outcome.is_some() || self.next >= self.jobs.len() {
            return None;
        }
        match &self.jobs[self.next] {
            SyncJob::Resolve { resolver, target } => {
                assert(self@.jobs[self@.next] == self.jobs@[self.next as int]@);
                Some(LookupRequest { resolver: *resolver, target: target.clone(), slug: self.slug.clone() })
            },
            SyncJob::UnknownKey(_) => {
                assert(self@.jobs[self@.next] == self.jobs@[self.next as int]@);
                None
            },
        }
    }

    /// Hand the run the answer to the lookup it awaits.
    pub fn feed(&mut self, lookup: Lookup)
        ensures
            final(self)@ == spec_feed(old(self)@, lookup@),
    {
        if self.outcome.is_some() || self.next >= self.jobs.len() {
            return;
        }
        let (resolver, target) = match &self.jobs[self.next] {
            SyncJob::Resolve { resolver, target } => (*resolver, target.clone()),
            SyncJob::UnknownKey(_) => {
                assert(self@.jobs[self@.next] == self.jobs@[self.next as int]@);
                return;
            },
        };
        assert(self@.jobs[self@.next] == self.jobs@[self.next as int]@);
        let ghost s0 = self@;
        self.next = self.next + 1;
        match lookup {
            Lookup::Missing => {
                let mut m = concat(target.as_str(), ": no '");
                m.append(self.slug.as_str());
                m.append("' — skipping");
                push_event(&mut self.events, Level::Info, m);
            },
            Lookup::Failed(cause) => {
                self.outcome = Some(Err(SbdError::Lookup { target, cause }));
            },
            Lookup::Found(id) => {
                if self.dry_run {
                    let mut m = concat(target.as_str(), ": would pin to '");
                    m.append(self.slug.as_str());
                    m.append("' (resolved ");
                    m.append(id.as_str());
                    m.append(")");
                    push_event(&mut self.events, Level::Notice, m);
                } else {
                    let rewriters = for_kind(resolver.kind());
                    let changed = match apply_all(&mut self.workspace, &rewriters, target.as_str(), self.slug.as_str()) {
                        Ok(c) => c,
                        Err(e) => {
                            self.outcome = Some(Err(e));
                            return;
                        },
                    };
                    if changed {
                        let mut m = concat(target.as_str(), ": pinned to '");
                        m.append(self.slug.as_str());
                        m.append("' (resolved ");
                        m.append(id.as_str());
                        m.append(")");
                        push_event(&mut self.events, Level::Notice, m);
                    } else {
                        let mut m = concat(target.as_str(), ": already at '");
                        m.append(self.slug.as_str());
                        m.append("'");
                        push_event(&mut self.events, Level::Info, m);
                    }
                }
            },
        }
    }

    /// The end of the run: the workspace as rewritten (to be written back),
    /// what to report, and how it ended (`Ok` for a run that is not over).
    pub fn finish(self) -> (r: (Workspace, Vec<Event>, Result<(), SbdError>))
        ensures
            r.0@ == self@.ws,
            events_view(r.1@) == self@.events,
            match self@.outcome {
                Some(Err(f)) => r.2 matches Err(e) && failure_of(e@) == f,
                _ => r.2 is Ok,
            },
    {
        let result = match self.outcome {
            Some(Err(e)) => Err(e),
            _ => Ok(()),
        };
        (self.workspace, self.events, result)
    }

    /// Whether the run is over.
    pub fn is_finished(&self) -> (r: bool)
        ensures
            r == self@.outcome is Some,
    {
        self.outcome.is_some()
    }
}

/// Apply every rewriter in order to the workspace.
fn apply_all(ws: &mut Workspace, rewriters: &Vec<AnyRewriter>, target: &str, slug: &str) -> (r: Result<bool, SbdError>)
    ensures
        ({
            let (w, c) = apply_rewriters(old(ws)@, rewriters@, target@, slug@);
            &&& final(ws)@ == w
            &&& match c {
                Some(changed) => r matches Ok(b) && b == changed,
                None => r matches Err(e) && e is Manifest,
            }
        }),
{
    let mut changed = false;
    let mut i: usize = 0;
    while i < rewriters.len()
        invariant
            i <= rewriters.len(),
            apply_rewriters(old(ws)@, rewriters@.take(i as int), target@, slug@) == (ws@, Some(changed)),
        decreases rewriters.len() - i,
    {
        proof {
            assert(rewriters@.take(i + 1).drop_last() =~= rewriters@.take(i as int));
            assert(rewriters@.take(i + 1).last() == rewriters@[i as int]);
        }
        match rewriters[i].rewrite(ws, target, slug) {
            Ok(c) => {
                changed = changed || c;
            },
            Err(e) => {
                proof {
                    lemma_apply_stops(old(ws)@, rewriters@, target@, slug@, i + 1);
                }
                return Err(e);
            },
        }
        i = i + 1;
    }
    assert(rewriters@.take(rewriters.len() as int) == rewriters@);
    Ok(changed)
}

proof fn lemma_apply_stops(ws: WorkspaceView, rewriters: Seq<AnyRewriter>, target: Seq<char>, slug: Seq<char>, k: int)
    requires
        0 <= k <= rewriters.len(),
        apply_rewriters(ws, rewriters.take(k), target, slug).1 is None,
    ensures
        apply_rewriters(ws, rewriters, target, slug) == apply_rewriters(ws, rewriters.take(k), target, slug),
    decreases rewriters.len() - k,
{
    if k < rewriters.len() {
        assert(rewriters.take(k + 1).drop_last() =~= rewriters.take(k));
        lemma_apply_stops(ws, rewriters, target, slug, k + 1);
    } else {
        assert(rewriters.take(k) == rewriters);
    }
}

/// A dry run changes no file: whatever the lookups answer, the workspace a
/// `--dry-run` sync ends with is the one it started with.
pub proof fn lemma_dry_run_writes_nothing(s: SyncState, lookup: LookupView)
    requires
        s.dry_run,
    ensures
        spec_feed(s, lookup).ws == s.ws,
        spec_feed(s, lookup).dry_run,
        spec_advance(s).ws == s.ws,
        spec_advance(s).dry_run,
    decreases s.jobs.len() - s.next,
{
    if !(s.outcome is Some || s.next < 0) && s.next < s.jobs.len() {
        if let SyncJobView::UnknownKey(k) = s.jobs[s.next] {
            let s2 = SyncState {
                events: s.events.push(note(Level::Warn, k + ": no resolver for this key — skipping"@)),
                next: s.next + 1,
                ..s
            };
            lemma_dry_run_writes_nothing(s2, lookup);
        }
    }
}

/// On the default branch, a detached `HEAD`, or with no branch, `sync` does
/// nothing: it asks no registry question, changes no file, and only notes the
/// no-op.
pub proof fn lemma_default_branch_is_noop(ws: WorkspaceView, branch: Seq<char>, default_branch: Seq<char>, dry_run: bool)
    requires
        spec_is_default_branch(branch, default_branch),
    ensures
        !awaiting(spec_advance(spec_start(ws, branch, default_branch, dry_run))),
        spec_advance(spec_start(ws, branch, default_branch, dry_run)).ws == ws,
        spec_advance(spec_start(ws, branch, default_branch, dry_run)).events == seq![note(Level::Info, noop_message(branch))],
        spec_advance(spec_start(ws, branch, default_branch, dry_run)).outcome == Some(Ok::<(), Failure>(())),
{
}

/// With no config, `sync` does nothing: it asks no registry question,
/// changes no file, and ends well.
pub proof fn lemma_missing_config_is_noop(ws: WorkspaceView, branch: Seq<char>, default_branch: Seq<char>, dry_run: bool)
    requires
        ws.config is None,
    ensures
        !awaiting(spec_advance(spec_start(ws, branch, default_branch, dry_run))),
        spec_advance(spec_start(ws, branch, default_branch, dry_run)).ws == ws,
        spec_advance(spec_start(ws, branch, default_branch, dry_run)).outcome == Some(Ok::<(), Failure>(())),
{
}

proof fn lemma_config_jobs_unknown(entries: Seq<(Seq<char>, Seq<Seq<char>>)>)
    requires
        forall|i: int| 0 <= i < entries.len() ==> spec_for_key(#[trigger] entries[i].0) is None,
    ensures
        forall|j: int| 0 <= j < config_jobs(entries).len() ==> #[trigger] config_jobs(entries)[j] is UnknownKey,
    decreases entries.len(),
{
    if entries.len() > 0 {
        let init = entries.drop_last();
        assert forall|i: int| 0 <= i < init.len() implies spec_for_key(#[trigger] init[i].0) is None by {
            assert(init[i] == entries[i]);
        }
        lemma_config_jobs_unknown(init);
        assert(spec_for_key(entries[entries.len() - 1].0) is None);
    }
}

proof fn lemma_advance_skips_unknown(s: SyncState)
    requires
        s.outcome is None,
        0 <= s.next,
        forall|j: int| s.next <= j < s.jobs.len() ==> #[trigger] s.jobs[j] is UnknownKey,
    ensures
        spec_advance(s).ws == s.ws,
        spec_advance(s).outcome == Some(Ok::<(), Failure>(())),
    decreases s.jobs.len() - s.next,
{
    if s.next < s.jobs.len() {
        if let SyncJobView::UnknownKey(k) = s.jobs[s.next] {
            let s2 = SyncState {
                events: s.events.push(note(Level::Warn, k + ": no resolver for this key — skipping"@)),
                next: s.next + 1,
                ..s
            };
            lemma_advance_skips_unknown(s2);
        }
    }
}

/// A config whose keys no resolver handles touches nothing: `sync` warns
/// about each key, asks no registry question, changes no file, and ends well.
pub proof fn lemma_unhandled_keys_touch_nothing(
    ws: WorkspaceView,
    branch: Seq<char>,
    default_branch: Seq<char>,
    dry_run: bool,
    raw: Seq<crate::config::RawEntryView>,
)
    requires
        ws.config matches Some(t) && yaml_document_entries(t) == Some(raw),
        forall|i: int| 0 <= i < raw.len() ==> spec_for_key(#[trigger] raw[i].0) is None,
    ensures
        !awaiting(spec_advance(spec_start(ws, branch, default_branch, dry_run))),
        spec_advance(spec_start(ws, branch, default_branch, dry_run)).ws == ws,
        spec_advance(spec_start(ws, branch, default_branch, dry_run)).outcome == Some(Ok::<(), Failure>(())),
{
    let entries = spec_from_entries(raw).entries;
    lemma_config_partitions_keys(raw);
    assert forall|i: int| 0 <= i < entries.len() implies spec_for_key(#[trigger] entries[i].0) is None by {
        let k = choose|k: int|
            0 <= k < raw.len() && raw[k].1 == Some(#[trigger] crate::config::listed_entries(raw)[i].1)
                && raw[k].0 == crate::config::listed_entries(raw)[i].0;
        assert(spec_for_key(raw[k].0) is None);
    }
    lemma_config_jobs_unknown(entries);
    if !spec_is_default_branch(branch, default_branch) {
        let s = spec_start(ws, branch, default_branch, dry_run);
        assert(s.jobs == config_jobs(entries));
        lemma_advance_skips_unknown(s);
    }
}

/// A registry miss and a lookup failure are different things: a miss moves
/// on to the next job with a note and changes nothing, while a failure ends
/// the run with that failure for that target.
pub proof fn lemma_miss_is_not_failure(s: SyncState, cause: Seq<char>)
    requires
        awaiting(s),
    ensures
        spec_feed(s, LookupView::Missing).outcome is None,
        spec_feed(s, LookupView::Missing).ws == s.ws,
        spec_feed(s, LookupView::Missing).next == s.next + 1,
        spec_feed(s, LookupView::Failed(cause)).outcome == Some(Err::<(), Failure>(Failure::Lookup {
            target: s.jobs[s.next]->Resolve_target,
            cause,
        })),
{
}

/// Whether a check finds nothing: an unknown key, or a target whose files
/// read fine and hold no pin.
pub open spec fn check_clean(ws: WorkspaceView, c: CheckView) -> bool {
    match c {
        CheckView::Target { rewriter, target } => match rewriter.spec_find_branch_pin(ws, target) {
            Some(p) => p.len() == 0,
            None => false,
        },
        CheckView::UnknownKey(_) => true,
    }
}

/// The verdict of `verify` is clean exactly when every check finds nothing.
pub proof fn lemma_verify_clean_iff_no_pins(ws: WorkspaceView, checks: Seq<CheckView>)
    ensures
        run_checks(ws, checks).1 == Some(true) <==> (forall|i: int|
            0 <= i < checks.len() ==> check_clean(ws, #[trigger] checks[i])),
    decreases checks.len(),
{
    if checks.len() > 0 {
        let init = checks.drop_last();
        lemma_verify_clean_iff_no_pins(ws, init);
        let n = checks.len() - 1;
        assert forall|i: int| 0 <= i < init.len() implies #[trigger] init[i] == checks[i] by {}
        if run_checks(ws, checks).1 == Some(true) {
            assert(run_checks(ws, init).1 == Some(true));
            assert(check_clean(ws, checks[n]));
            assert forall|i: int| 0 <= i < checks.len() implies check_clean(ws, #[trigger] checks[i]) by {
                if i < n {
                    assert(check_clean(ws, init[i]));
                }
            }
        }
        if forall|i: int| 0 <= i < checks.len() ==> check_clean(ws, #[trigger] checks[i]) {
            assert forall|i: int| 0 <= i < init.len() implies check_clean(ws, #[trigger] init[i]) by {
                assert(check_clean(ws, checks[i]));
            }
            assert(check_clean(ws, checks[n]));
        }
    }
}

} // verus!
