//! The machine-wide registry of repositories and what pruning them has freed, and the
//! per-repository configuration files.
//!
//! Reading and writing `registry.json`, resolving paths against the filesystem and
//! reading the clock belong to the caller: every operation here takes the canonical
//! key, the current time, or the set of registered paths that no longer exist as
//! arguments, and is proved against the registry's abstract view.
use vstd::prelude::*;

use crate::order;
use crate::text;

verus! {

broadcast use vstd::seq_lib::group_seq_properties;

/// How many prune passes the history keeps; the oldest are dropped first.
pub const PRUNE_HISTORY_LIMIT: usize = 50;

/// How many restores an adapter's running average is made of before older ones are
/// halved away.
pub const RESTORE_RATE_SAMPLE_CAP: u32 = 20;

/// Restores quicker than this found everything still cached and taught no rate.
pub const RESTORE_RATE_MIN_MILLIS: u64 = 250;

// ---------------------------------------------------------------------------------
// Entries
// ---------------------------------------------------------------------------------

/// Metadata for a single registered repository. Times are seconds since the epoch.
pub struct RepoEntry {
    /// When the repository was added to the registry.
    pub added_at: i64,
    /// When it was last pruned, if ever.
    pub last_pruned_at: Option<i64>,
    /// Per-repository override for the idle threshold, in days.
    pub override_idle_days: Option<u64>,
    /// Whether the repository is enabled for pruning.
    pub enabled: bool,
    /// Cumulative bytes reclaimed from this repository.
    pub total_freed_bytes: u64,
    /// The repository's root commit, which survives a move where its path does not.
    pub identity: Option<String>,
}

/// The abstract value of a [`RepoEntry`].
pub struct EntryView {
    pub added_at: i64,
    pub last_pruned_at: Option<i64>,
    pub override_idle_days: Option<u64>,
    pub enabled: bool,
    pub total_freed_bytes: u64,
    pub identity: Option<Seq<char>>,
}

impl View for RepoEntry {
    type V = EntryView;

    open spec fn view(&self) -> EntryView {
        EntryView {
            added_at: self.added_at,
            last_pruned_at: self.last_pruned_at,
            override_idle_days: self.override_idle_days,
            enabled: self.enabled,
            total_freed_bytes: self.total_freed_bytes,
            identity: text::opt_view(self.identity),
        }
    }
}

/// A freshly registered repository.
pub open spec fn new_entry(now: i64) -> EntryView {
    EntryView {
        added_at: now,
        last_pruned_at: None,
        override_idle_days: None,
        enabled: true,
        total_freed_bytes: 0,
        identity: None,
    }
}

impl RepoEntry {
    /// A new entry added at `now`: enabled, never pruned, with no identity yet.
    pub fn new(now: i64) -> (e: Self)
        ensures
            e@ == new_entry(now),
    {
        RepoEntry {
            added_at: now,
            last_pruned_at: None,
            override_idle_days: None,
            enabled: true,
            total_freed_bytes: 0,
            identity: None,
        }
    }
}

/// One directory a prune pass deleted: enough to put it back and nothing more.
pub struct PrunedDir {
    /// Repository root the directory belonged to.
    pub repo_path: String,
    /// Repository-relative label, `/`-separated.
    pub bloat_dir: String,
    /// Adapter that verified and deleted it.
    pub adapter: String,
    /// Bytes reclaimed.
    pub size_freed: u64,
    /// The language runtime the directory was built against, where one is pinned.
    pub runtime: Option<String>,
}

/// The abstract value of a [`PrunedDir`].
pub struct PrunedDirView {
    pub repo_path: Seq<char>,
    pub bloat_dir: Seq<char>,
    pub adapter: Seq<char>,
    pub size_freed: u64,
    pub runtime: Option<Seq<char>>,
}

impl View for PrunedDir {
    type V = PrunedDirView;

    open spec fn view(&self) -> PrunedDirView {
        PrunedDirView {
            repo_path: self.repo_path@,
            bloat_dir: self.bloat_dir@,
            adapter: self.adapter@,
            size_freed: self.size_freed,
            runtime: text::opt_view(self.runtime),
        }
    }
}

/// The abstract values of a list of pruned directories.
pub open spec fn dirs_view(d: Seq<PrunedDir>) -> Seq<PrunedDirView> {
    d.map_values(|x: PrunedDir| x@)
}

// ---------------------------------------------------------------------------------
// Settings
// ---------------------------------------------------------------------------------

/// Inactive days before a repository is eligible for pruning, by default.
pub const DEFAULT_IDLE_DAYS: u64 = 15;
/// Days between scheduled passes, by default.
pub const DEFAULT_CHECK_INTERVAL_DAYS: u64 = 2;
/// Days between automatic release checks, by default.
pub const UPDATE_CHECK_INTERVAL_DAYS: i64 = 7;
/// Seconds the release check waits for an answer, by default.
pub const UPDATE_CHECK_TIMEOUT_SECS: u64 = 5;
/// The language the tool's own headings use by default.
pub const DEFAULT_LANGUAGE: &'static str = "en";
/// The registry's schema version.
pub const REGISTRY_VERSION: &'static str = "1.0";

/// Global settings, kept in the registry.
///
/// `adapter_idle_days` and `cache_max_gb` are keyed lists, each name at most once;
/// `unknown_keys` carries settings this build does not know, each with its value as
/// JSON text, so a save never erases what a newer build wrote.
#[derive(Debug, PartialEq, Eq)]
pub struct Settings {
    /// Inactive days before a repository is eligible for pruning.
    pub idle_days: u64,
    /// Days between scheduled passes.
    pub check_interval_days: u64,
    /// Whether setup installs the OS scheduler.
    pub auto_daemon: bool,
    /// Whether setup installs the global Git hooks.
    pub auto_hooks: bool,
    /// Whether the tool installs its own missing integrations.
    pub auto_setup: bool,
    /// Whether `link` and `init` write a default `.devprune.json`.
    pub auto_config: bool,
    /// Whether the scheduled pass looks for unregistered repositories itself.
    pub auto_discover: bool,
    /// Whether deleting asks for confirmation first.
    pub require_confirmation: bool,
    /// Ceiling on any one package-manager command, in seconds.
    pub command_timeout_secs: u64,
    /// Smallest bloat directory worth deleting, in MiB; `0` disables the floor.
    pub min_size_mb: u64,
    /// Whether the tool asks for the latest release from time to time.
    pub update_check: bool,
    /// How many levels below a repository root discovery descends.
    pub scan_depth: usize,
    /// Whether a package manager may rewrite a tracked lockfile.
    pub allow_manifest_rewrite: bool,
    /// Days between automatic release checks.
    pub update_check_interval_days: i64,
    /// Seconds the release check waits.
    pub update_check_timeout_secs: u64,
    /// Whether setup may install the hooks in front of another tool's.
    pub auto_hooks_chain: bool,
    /// The opt-in Cargo adapter.
    pub enable_cargo: bool,
    /// The opt-in Gradle adapter.
    pub enable_gradle: bool,
    /// The opt-in Maven adapter.
    pub enable_maven: bool,
    /// The opt-in Swift Package Manager adapter.
    pub enable_swift: bool,
    /// The opt-in Dart and Flutter adapter.
    pub enable_dart: bool,
    /// The opt-in Mix build-tree adapter.
    pub enable_mix_build: bool,
    /// The opt-in vcpkg adapter.
    pub enable_vcpkg: bool,
    /// The opt-in CMake build-tree adapter.
    pub enable_cmake_build: bool,
    /// Idle days before build-tree directories are pruned.
    pub build_idle_days: u64,
    /// Whether a newer release installs itself after a pass.
    pub auto_update: bool,
    /// Whether this copy stays on the version it is, whatever else is set.
    pub version_lock: bool,
    /// Adapters switched off by name.
    pub disabled_adapters: Vec<String>,
    /// Per-adapter idle windows, in days: a floor, never a bypass.
    pub adapter_idle_days: Vec<(String, u64)>,
    /// Per-manager cache size caps, in GiB.
    pub cache_max_gb: Vec<(String, u64)>,
    /// Language for the tool's own headings.
    pub language: String,
    /// Settings this build has never heard of, carried through a save verbatim.
    pub unknown_keys: Vec<(String, String)>,
}

/// Whether settings hold every default: the idle and scheduling windows, integrations
/// on, confirmation required, no opt-in adapter, updates checked and installed, no pin,
/// nothing disabled, no per-adapter window or cache cap, English.
pub open spec fn is_default_settings(s: Settings) -> bool {
    &&& s.idle_days == DEFAULT_IDLE_DAYS
    &&& s.check_interval_days == DEFAULT_CHECK_INTERVAL_DAYS
    &&& s.auto_daemon
    &&& s.auto_hooks
    &&& s.auto_setup
    &&& !s.auto_config
    &&& s.auto_discover
    &&& s.require_confirmation
    &&& s.command_timeout_secs == 600
    &&& s.min_size_mb == 0
    &&& s.update_check
    &&& s.scan_depth == 6
    &&& !s.allow_manifest_rewrite
    &&& s.update_check_interval_days == UPDATE_CHECK_INTERVAL_DAYS
    &&& s.update_check_timeout_secs == UPDATE_CHECK_TIMEOUT_SECS
    &&& !s.auto_hooks_chain
    &&& !s.enable_cargo
    &&& !s.enable_gradle
    &&& !s.enable_maven
    &&& !s.enable_swift
    &&& !s.enable_dart
    &&& !s.enable_mix_build
    &&& !s.enable_vcpkg
    &&& !s.enable_cmake_build
    &&& s.build_idle_days == 45
    &&& s.auto_update
    &&& !s.version_lock
    &&& s.disabled_adapters@.len() == 0
    &&& s.adapter_idle_days@.len() == 0
    &&& s.cache_max_gb@.len() == 0
    &&& s.language@ == DEFAULT_LANGUAGE@
    &&& s.unknown_keys@.len() == 0
}

impl Default for Settings {
    fn default() -> (s: Self)
        ensures
            is_default_settings(s),
    {
        Settings {
            idle_days: DEFAULT_IDLE_DAYS,
            check_interval_days: DEFAULT_CHECK_INTERVAL_DAYS,
            auto_daemon: true,
            auto_hooks: true,
            auto_setup: true,
            auto_config: false,
            auto_discover: true,
            require_confirmation: true,
            command_timeout_secs: 600,
            min_size_mb: 0,
            update_check: true,
            scan_depth: 6,
            allow_manifest_rewrite: false,
            update_check_interval_days: UPDATE_CHECK_INTERVAL_DAYS,
            update_check_timeout_secs: UPDATE_CHECK_TIMEOUT_SECS,
            auto_hooks_chain: false,
            enable_cargo: false,
            enable_gradle: false,
            enable_maven: false,
            enable_swift: false,
            enable_dart: false,
            enable_mix_build: false,
            enable_vcpkg: false,
            enable_cmake_build: false,
            build_idle_days: 45,
            auto_update: true,
            version_lock: false,
            disabled_adapters: Vec::new(),
            adapter_idle_days: Vec::new(),
            cache_max_gb: Vec::new(),
            language: text::owned(DEFAULT_LANGUAGE),
            unknown_keys: Vec::new(),
        }
    }
}

/// What the most recent prune pass deleted, for restoring it.
pub struct LastPrune {
    /// When the pass ran.
    pub at: i64,
    /// Every directory it removed.
    pub dirs: Vec<PrunedDir>,
}

/// A one-line summary of a completed prune pass.
#[derive(Clone, Copy, PartialEq, Eq, Structural, Debug)]
pub struct PruneRunSummary {
    /// When the pass ran.
    pub at: i64,
    /// Bytes reclaimed by the pass.
    pub bytes_freed: u64,
    /// How many directories it removed.
    pub dirs_removed: usize,
    /// How many distinct repositories it touched.
    pub repos_touched: usize,
}

/// One adapter's observed restore throughput: totals, so a new measurement folds in
/// without keeping per-repository samples.
#[derive(Clone, Copy, PartialEq, Eq, Structural, Debug)]
pub struct RestoreRate {
    /// How many restores the totals are made of.
    pub samples: u32,
    /// Bytes those restores put back.
    pub bytes: u64,
    /// Milliseconds they took.
    pub millis: u64,
}

// ---------------------------------------------------------------------------------
// The registry and its abstract view
// ---------------------------------------------------------------------------------

/// The registry's record of repositories, totals and recent passes.
///
/// `repositories` and `restore_rates` are keyed lists: no key occurs twice (see
/// [`Registry::wf`]).
pub struct Registry {
    /// Schema version, for forward compatibility.
    pub version: String,
    /// Global settings.
    pub settings: Settings,
    /// Canonical repository paths and their metadata.
    pub repositories: Vec<(String, RepoEntry)>,
    /// Bytes freed by prune passes, ever.
    pub total_freed_bytes: u64,
    /// Bytes given back by clearing shared caches, ever; kept apart from prunes.
    pub total_cache_freed_bytes: u64,
    /// How many prune passes have deleted something: one per pass.
    pub total_pruned_count: u64,
    /// Repository paths added by the most recent init or link, for undo.
    pub last_added_repos: Vec<String>,
    /// What the most recent pass deleted.
    pub last_prune: Option<LastPrune>,
    /// Summaries of recent passes, oldest first.
    pub prune_history: Vec<PruneRunSummary>,
    /// When the release check last ran.
    pub last_update_check: Option<i64>,
    /// The newest release seen by the last check.
    pub latest_known_version: Option<String>,
    /// How fast each adapter has restored on this machine, by adapter name.
    pub restore_rates: Vec<(String, RestoreRate)>,
}

/// The abstract value of a [`Registry`].
#[verifier::ext_equal]
pub struct RegistryView {
    pub version: Seq<char>,
    pub settings: Settings,
    pub repositories: Seq<(Seq<char>, EntryView)>,
    pub total_freed_bytes: u64,
    pub total_cache_freed_bytes: u64,
    pub total_pruned_count: u64,
    pub last_added_repos: Seq<Seq<char>>,
    pub last_prune: Option<(i64, Seq<PrunedDirView>)>,
    pub prune_history: Seq<PruneRunSummary>,
    pub last_update_check: Option<i64>,
    pub latest_known_version: Option<Seq<char>>,
    pub restore_rates: Seq<(Seq<char>, RestoreRate)>,
}

/// The abstract value of the repository list.
pub open spec fn repos_view(v: Seq<(String, RepoEntry)>) -> Seq<(Seq<char>, EntryView)> {
    v.map_values(|p: (String, RepoEntry)| (p.0@, p.1@))
}

/// The abstract value of the restore-rate list.
pub open spec fn rates_view(v: Seq<(String, RestoreRate)>) -> Seq<(Seq<char>, RestoreRate)> {
    v.map_values(|p: (String, RestoreRate)| (p.0@, p.1))
}

/// The abstract value of a recorded pass.
pub open spec fn last_prune_view(p: Option<LastPrune>) -> Option<(i64, Seq<PrunedDirView>)> {
    match p {
        Some(lp) => Some((lp.at, dirs_view(lp.dirs@))),
        None => None,
    }
}

impl View for Registry {
    type V = RegistryView;

    open spec fn view(&self) -> RegistryView {
        RegistryView {
            version: self.version@,
            settings: self.settings,
            repositories: repos_view(self.repositories@),
            total_freed_bytes: self.total_freed_bytes,
            total_cache_freed_bytes: self.total_cache_freed_bytes,
            total_pruned_count: self.total_pruned_count,
            last_added_repos: text::views(self.last_added_repos@),
            last_prune: last_prune_view(self.last_prune),
            prune_history: self.prune_history@,
            last_update_check: self.last_update_check,
            latest_known_version: text::opt_view(self.latest_known_version),
            restore_rates: rates_view(self.restore_rates@),
        }
    }
}

/// The keys of a keyed list.
pub open spec fn keys_of<V>(s: Seq<(Seq<char>, V)>) -> Seq<Seq<char>> {
    s.map_values(|p: (Seq<char>, V)| p.0)
}

/// The first index at or after `i` at which `ks` holds `key`.
pub open spec fn key_index(ks: Seq<Seq<char>>, key: Seq<char>, i: int) -> Option<int>
    decreases ks.len() - i,
{
    if i < 0 || i >= ks.len() {
        None
    } else if ks[i] == key {
        Some(i)
    } else {
        key_index(ks, key, i + 1)
    }
}

/// The index of `key` in a keyed list.
pub open spec fn index_of<V>(s: Seq<(Seq<char>, V)>, key: Seq<char>) -> Option<int> {
    key_index(keys_of(s), key, 0)
}

/// Whether a keyed list holds `key`.
pub open spec fn has_key<V>(s: Seq<(Seq<char>, V)>, key: Seq<char>) -> bool {
    keys_of(s).contains(key)
}

/// The text of the names in a list of named values.
pub open spec fn names_of<V>(v: Seq<(String, V)>) -> Seq<Seq<char>> {
    v.map_values(|p: (String, V)| p.0@)
}

/// Well-formedness of the abstract registry: both keyed lists hold each key once, and
/// the history holds at most [`PRUNE_HISTORY_LIMIT`] passes.
pub open spec fn view_wf(r: RegistryView) -> bool {
    &&& keys_of(r.repositories).no_duplicates()
    &&& keys_of(r.restore_rates).no_duplicates()
    &&& r.prune_history.len() <= PRUNE_HISTORY_LIMIT
}

impl Registry {
    /// Well-formedness: see [`view_wf`].
    pub open spec fn wf(&self) -> bool {
        view_wf(self@)
    }
}

proof fn lemma_key_index(ks: Seq<Seq<char>>, key: Seq<char>, i: int)
    requires
        0 <= i,
    ensures
        key_index(ks, key, i) matches Some(j) ==> i <= j < ks.len() && ks[j] == key,
        key_index(ks, key, i) is None ==> forall|k: int| i <= k < ks.len() ==> ks[k] != key,
    decreases ks.len() - i,
{
    if i < ks.len() && ks[i] != key {
        lemma_key_index(ks, key, i + 1);
    }
}

/// What `index_of` says about the index it returns.
pub proof fn lemma_index_of<V>(s: Seq<(Seq<char>, V)>, key: Seq<char>)
    ensures
        index_of(s, key) matches Some(j) ==> 0 <= j < s.len() && s[j].0 == key,
        index_of(s, key) is None <==> !has_key(s, key),
{
    lemma_key_index(keys_of(s), key, 0);
    if index_of(s, key) is None {
        assert forall|k: int| 0 <= k < keys_of(s).len() implies keys_of(s)[k] != key by {}
    } else {
        let j = index_of(s, key)->0;
        assert(keys_of(s)[j] == key);
    }
}

/// The index of `key` among the names of `v`.
fn find_key<V>(v: &Vec<(String, V)>, key: &[char]) -> (r: Option<usize>)
    ensures
        match r {
            Some(i) => key_index(names_of(v@), key@, 0) == Some(i as int),
            None => key_index(names_of(v@), key@, 0) is None,
        },
{
    let ghost ks = names_of(v@);
    let mut i: usize = 0;
    while i < v.len()
        invariant
            i <= v.len(),
            ks == names_of(v@),
            key_index(ks, key@, 0) == key_index(ks, key@, i as int),
        decreases v.len() - i,
    {
        let k = text::chars_of(v[i].0.as_str());
        if text::chars_eq(&k, key) {
            return Some(i);
        }
        i = i + 1;
    }
    None
}

proof fn lemma_repo_names(v: Seq<(String, RepoEntry)>)
    ensures
        keys_of(repos_view(v)) == names_of(v),
{
    assert(keys_of(repos_view(v)) =~= names_of(v));
}

proof fn lemma_rate_names(v: Seq<(String, RestoreRate)>)
    ensures
        keys_of(rates_view(v)) == names_of(v),
{
    assert(keys_of(rates_view(v)) =~= names_of(v));
}

/// The registry in which `key` is registered at `now`, and whether it was new.
pub open spec fn added(r: RegistryView, key: Seq<char>, now: i64) -> (RegistryView, bool) {
    if has_key(r.repositories, key) {
        (r, false)
    } else {
        (RegistryView { repositories: r.repositories.push((key, new_entry(now))), ..r }, true)
    }
}

/// The registry after crediting `bytes` to the repository `key` (when registered) at
/// `now`, and to the machine-wide total.
pub open spec fn credited(r: RegistryView, key: Seq<char>, bytes: u64, now: i64) -> RegistryView {
    let repos = match index_of(r.repositories, key) {
        Some(i) => {
            let e = r.repositories[i].1;
            r.repositories.update(
                i,
                (
                    key,
                    EntryView {
                        last_pruned_at: Some(now),
                        total_freed_bytes: (e.total_freed_bytes + bytes) as u64,
                        ..e
                    },
                ),
            )
        },
        None => r.repositories,
    };
    RegistryView {
        repositories: repos,
        total_freed_bytes: (r.total_freed_bytes + bytes) as u64,
        ..r
    }
}

/// Whether crediting `bytes` to `key` fits in the totals it adds to.
pub open spec fn credit_fits(r: RegistryView, key: Seq<char>, bytes: u64) -> bool {
    &&& r.total_freed_bytes + bytes <= u64::MAX
    &&& match index_of(r.repositories, key) {
        Some(i) => r.repositories[i].1.total_freed_bytes + bytes <= u64::MAX,
        None => true,
    }
}

/// The registry after a cache clear gave back `bytes`.
pub open spec fn cache_cleared(r: RegistryView, bytes: u64) -> RegistryView {
    RegistryView { total_cache_freed_bytes: (r.total_cache_freed_bytes + bytes) as u64, ..r }
}

/// `a + b`, or `u64::MAX` where that overflows.
pub open spec fn sat_add(a: u64, b: u64) -> u64 {
    if a + b > u64::MAX {
        u64::MAX
    } else {
        (a + b) as u64
    }
}

fn saturating_add(a: u64, b: u64) -> (r: u64)
    ensures
        r == sat_add(a, b),
{
    if a > u64::MAX - b {
        u64::MAX
    } else {
        a + b
    }
}

/// A rate with one more restore folded in; at the sample cap the old totals are halved
/// first, so recent restores keep their weight.
pub open spec fn folded(rate: RestoreRate, bytes: u64, millis: u64) -> RestoreRate {
    let base = if rate.samples >= RESTORE_RATE_SAMPLE_CAP {
        RestoreRate { samples: rate.samples / 2, bytes: rate.bytes / 2, millis: rate.millis / 2 }
    } else {
        rate
    };
    RestoreRate {
        samples: (base.samples + 1) as u32,
        bytes: sat_add(base.bytes, bytes),
        millis: sat_add(base.millis, millis),
    }
}

/// The registry after one measured restore of `adapter`. A restore that put nothing
/// back, or was too quick to have been real work, teaches nothing.
pub open spec fn restored(r: RegistryView, adapter: Seq<char>, bytes: u64, millis: u64) -> RegistryView {
    if bytes == 0 || millis < RESTORE_RATE_MIN_MILLIS {
        r
    } else {
        match index_of(r.restore_rates, adapter) {
            Some(i) => RegistryView {
                restore_rates: r.restore_rates.update(
                    i,
                    (adapter, folded(r.restore_rates[i].1, bytes, millis)),
                ),
                ..r
            },
            None => RegistryView {
                restore_rates: r.restore_rates.push(
                    (adapter, folded(RestoreRate { samples: 0, bytes: 0, millis: 0 }, bytes, millis)),
                ),
                ..r
            },
        }
    }
}

fn fold_rate(rate: RestoreRate, bytes: u64, millis: u64) -> (r: RestoreRate)
    ensures
        r == folded(rate, bytes, millis),
{
    let base = if rate.samples >= RESTORE_RATE_SAMPLE_CAP {
        RestoreRate { samples: rate.samples / 2, bytes: rate.bytes / 2, millis: rate.millis / 2 }
    } else {
        rate
    };
    RestoreRate {
        samples: base.samples + 1,
        bytes: saturating_add(base.bytes, bytes),
        millis: saturating_add(base.millis, millis),
    }
}

/// The bytes a list of pruned directories freed.
pub open spec fn sum_freed(d: Seq<PrunedDirView>) -> nat
    decreases d.len(),
{
    if d.len() == 0 {
        0
    } else {
        sum_freed(d.drop_last()) + d.last().size_freed as nat
    }
}

/// The repositories a list of pruned directories belonged to.
pub open spec fn repo_paths(d: Seq<PrunedDirView>) -> Seq<Seq<char>> {
    d.map_values(|x: PrunedDirView| x.repo_path)
}

/// The repositories a list of pruned directories belonged to, as their path
/// components: `/a` and `/a/` are one repository.
pub open spec fn repo_keys(d: Seq<PrunedDirView>) -> Seq<Seq<order::Component>> {
    repo_paths(d).map_values(|p: Seq<char>| order::components_of(p))
}

/// How many distinct repositories a list of pruned directories touched, paths compared
/// by component as `PathBuf` compares them.
pub open spec fn distinct_repos(d: Seq<PrunedDirView>) -> nat {
    repo_keys(d).to_set().len()
}

/// The summary a pass that deleted `d` at `at` is remembered by.
pub open spec fn summary_of(at: i64, d: Seq<PrunedDirView>) -> PruneRunSummary {
    PruneRunSummary {
        at,
        bytes_freed: sum_freed(d) as u64,
        dirs_removed: d.len() as usize,
        repos_touched: distinct_repos(d) as usize,
    }
}

/// A history with the oldest entries dropped down to [`PRUNE_HISTORY_LIMIT`].
pub open spec fn capped(h: Seq<PruneRunSummary>) -> Seq<PruneRunSummary> {
    if h.len() > PRUNE_HISTORY_LIMIT {
        h.skip(h.len() - PRUNE_HISTORY_LIMIT)
    } else {
        h
    }
}

/// Whether the newest history entry is the pass started at `at`.
pub open spec fn continues_pass(r: RegistryView, at: i64) -> bool {
    r.prune_history.len() > 0 && r.prune_history.last().at == at
}

/// The registry after recording that the pass started at `at` has so far deleted `d`.
///
/// A pass that deleted nothing changes nothing. A pass already recorded (the newest
/// history entry carries its `at`) replaces its own summary and record rather than
/// being counted again; any other pass is counted once and appended, dropping the
/// oldest summaries beyond the limit.
pub open spec fn progressed(r: RegistryView, at: i64, d: Seq<PrunedDirView>) -> RegistryView {
    if d.len() == 0 {
        r
    } else {
        let same = continues_pass(r, at);
        let base = if same {
            r.prune_history.drop_last()
        } else {
            r.prune_history
        };
        RegistryView {
            total_pruned_count: if same {
                r.total_pruned_count
            } else {
                (r.total_pruned_count + 1) as u64
            },
            prune_history: capped(base.push(summary_of(at, d))),
            last_prune: Some((at, d)),
            ..r
        }
    }
}

/// Whether recording `d` at `at` fits the counters it adds to.
pub open spec fn progress_fits(r: RegistryView, at: i64, d: Seq<PrunedDirView>) -> bool {
    &&& sum_freed(d) <= u64::MAX
    &&& (d.len() > 0 && !continues_pass(r, at)) ==> r.total_pruned_count + 1 <= u64::MAX
}

proof fn lemma_sum_step(d: Seq<PrunedDirView>, i: int)
    requires
        0 <= i < d.len(),
    ensures
        sum_freed(d.take(i + 1)) == sum_freed(d.take(i)) + d[i].size_freed,
{
    assert(d.take(i + 1).drop_last() == d.take(i));
}

proof fn lemma_sum_prefix(d: Seq<PrunedDirView>, i: int)
    requires
        0 <= i <= d.len(),
    ensures
        sum_freed(d.take(i)) <= sum_freed(d),
    decreases d.len() - i,
{
    if i < d.len() {
        lemma_sum_prefix(d, i + 1);
        lemma_sum_step(d, i);
    } else {
        assert(d.take(i) == d);
    }
}

/// The bytes the directories freed, in total.
pub(crate) fn total_size(dirs: &Vec<PrunedDir>) -> (n: u64)
    requires
        sum_freed(dirs_view(dirs@)) <= u64::MAX,
    ensures
        n == sum_freed(dirs_view(dirs@)),
{
    let ghost d = dirs_view(dirs@);
    let mut total: u64 = 0;
    let mut i: usize = 0;
    while i < dirs.len()
        invariant
            i <= dirs.len(),
            d == dirs_view(dirs@),
            sum_freed(d) <= u64::MAX,
            total == sum_freed(d.take(i as int)),
        decreases dirs.len() - i,
    {
        proof {
            lemma_sum_step(d, i as int);
            lemma_sum_prefix(d, i + 1);
        }
        total = total + dirs[i].size_freed;
        i = i + 1;
    }
    assert(d.take(i as int) == d);
    total
}

/// The components of each of a list of paths.
pub open spec fn comps_seqs(v: Seq<Vec<order::Comp>>) -> Seq<Seq<order::Component>> {
    v.map_values(|c: Vec<order::Comp>| order::comps_view(c@))
}

fn contains_comps(seen: &Vec<Vec<order::Comp>>, x: &Vec<order::Comp>) -> (r: bool)
    ensures
        r == comps_seqs(seen@).contains(order::comps_view(x@)),
{
    let mut i: usize = 0;
    while i < seen.len()
        invariant
            i <= seen.len(),
            forall|j: int| 0 <= j < i ==> comps_seqs(seen@)[j] != order::comps_view(x@),
        decreases seen.len() - i,
    {
        proof {
            order::lemma_components_order(order::comps_view(seen@[i as int]@), order::comps_view(x@));
        }
        if order::components_order_exec(&seen[i], x) == 0 {
            assert(comps_seqs(seen@)[i as int] == order::comps_view(x@));
            return true;
        }
        i = i + 1;
    }
    false
}

/// How many distinct repositories the directories belonged to.
pub(crate) fn count_repos(dirs: &Vec<PrunedDir>) -> (n: usize)
    ensures
        n == distinct_repos(dirs_view(dirs@)),
{
    let ghost ps = repo_keys(dirs_view(dirs@));
    let mut seen: Vec<Vec<order::Comp>> = Vec::new();
    let mut i: usize = 0;
    assert(ps.take(0).to_set() =~= Set::<Seq<order::Component>>::empty());
    assert(comps_seqs(seen@).to_set() =~= Set::<Seq<order::Component>>::empty());
    while i < dirs.len()
        invariant
            i <= dirs.len(),
            ps == repo_keys(dirs_view(dirs@)),
            ps.len() == dirs.len(),
            comps_seqs(seen@).no_duplicates(),
            comps_seqs(seen@).to_set() == ps.take(i as int).to_set(),
            seen.len() <= i,
        decreases dirs.len() - i,
    {
        let x = order::components(dirs[i].repo_path.as_str());
        assert(order::comps_view(x@) == ps[i as int]);
        assert(ps.take(i + 1) == ps.take(i as int).push(order::comps_view(x@)));
        proof {
            Seq::<Seq<order::Component>>::lemma_to_set_insert_commutes(ps.take(i as int), order::comps_view(x@));
            assert(ps.take(i as int) + seq![order::comps_view(x@)] == ps.take(i as int).push(order::comps_view(x@)));
        }
        if !contains_comps(&seen, &x) {
            let ghost before = seen@;
            let ghost xv = order::comps_view(x@);
            seen.push(x);
            proof {
                assert(comps_seqs(seen@) =~= comps_seqs(before).push(xv));
                Seq::<Seq<order::Component>>::lemma_to_set_insert_commutes(comps_seqs(before), xv);
                assert(comps_seqs(before) + seq![xv] == comps_seqs(before).push(xv));
            }
        } else {
            assert(comps_seqs(seen@).to_set().contains(order::comps_view(x@)));
            assert(comps_seqs(seen@).to_set().insert(order::comps_view(x@)) =~= comps_seqs(seen@).to_set());
        }
        i = i + 1;
    }
    assert(ps.take(i as int) == ps);
    proof {
        comps_seqs(seen@).unique_seq_to_set();
    }
    seen.len()
}

/// A path as compared when canonical forms cannot be had: `/` for `\`, without the
/// Windows `\\?\` prefix or trailing separators, and case-folded on Windows.
pub open spec fn loose_form(p: Seq<char>, windows: bool) -> Seq<char> {
    let a = text::replace_all(p, "\\"@, "/"@);
    let b = if text::starts_with(a, "//?/"@) {
        a.skip(4)
    } else {
        a
    };
    let c = text::trim_end_matches(b, '/');
    if windows {
        text::lowercase(c)
    } else {
        c
    }
}

/// Whether two paths name the same directory, tolerating the differences
/// canonicalisation normally absorbs.
pub open spec fn loose_eq(a: Seq<char>, b: Seq<char>, windows: bool) -> bool {
    loose_form(a, windows) == loose_form(b, windows)
}

fn loose_form_of(p: &str, windows: bool) -> (r: Vec<char>)
    ensures
        r@ == loose_form(p@, windows),
{
    proof {
        reveal_strlit("\\");
        reveal_strlit("//?/");
    }
    let v = text::chars_of(p);
    let a = text::replace_str(&v, "\\", "/");
    let b = if text::starts_with_str(&a, "//?/") {
        text::slice_of(&a, 4, a.len())
    } else {
        a
    };
    let c = text::trim_end_matches_chars(&b, '/');
    if windows {
        let s = text::string_of(&c);
        let l = text::to_lowercase(s.as_str());
        text::chars_of(l.as_str())
    } else {
        c
    }
}

/// Whether two paths name the same directory, loosely.
pub fn loose_path_eq(a: &str, b: &str, windows: bool) -> (r: bool)
    ensures
        r == loose_eq(a@, b@, windows),
{
    let x = loose_form_of(a, windows);
    let y = loose_form_of(b, windows);
    text::chars_eq(&x, &y)
}

/// The first index at or after `i` whose path loosely equals `target`.
pub open spec fn loose_index(ks: Seq<Seq<char>>, target: Seq<char>, windows: bool, i: int) -> Option<
    int,
>
    decreases ks.len() - i,
{
    if i < 0 || i >= ks.len() {
        None
    } else if loose_eq(ks[i], target, windows) {
        Some(i)
    } else {
        loose_index(ks, target, windows, i + 1)
    }
}

/// `s` without the paths that loosely equal `target`.
pub open spec fn retain_unlike(s: Seq<Seq<char>>, target: Seq<char>, windows: bool) -> Seq<
    Seq<char>,
>
    decreases s.len(),
{
    if s.len() == 0 {
        s
    } else {
        let rest = retain_unlike(s.drop_last(), target, windows);
        if loose_eq(s.last(), target, windows) {
            rest
        } else {
            rest.push(s.last())
        }
    }
}

/// `s` without the occurrences of `x`.
pub open spec fn without(s: Seq<Seq<char>>, x: Seq<char>) -> Seq<Seq<char>>
    decreases s.len(),
{
    if s.len() == 0 {
        s
    } else {
        let rest = without(s.drop_last(), x);
        if s.last() == x {
            rest
        } else {
            rest.push(s.last())
        }
    }
}

/// Which entry unlinking removes: the one under the canonical key, or else the first
/// whose path loosely equals the lexical form of what was asked for.
pub open spec fn removal_index(r: RegistryView, key: Seq<char>, target: Seq<char>, windows: bool) -> Option<
    int,
> {
    match index_of(r.repositories, key) {
        Some(i) => Some(i),
        None => loose_index(keys_of(r.repositories), target, windows, 0),
    }
}

/// The registry after unlinking `key` (with `target` its lexical absolute form), and
/// whether an entry was removed. The undo list loses every spelling of the target.
pub open spec fn removed(r: RegistryView, key: Seq<char>, target: Seq<char>, windows: bool) -> (
    RegistryView,
    bool,
) {
    match removal_index(r, key, target, windows) {
        Some(i) => (
            RegistryView {
                repositories: r.repositories.remove(i),
                last_added_repos: retain_unlike(r.last_added_repos, target, windows),
                ..r
            },
            true,
        ),
        None => (r, false),
    }
}

/// Outcome of recording a repository's identity when it was registered.
pub enum Adoption {
    /// No dead entry claimed this identity.
    Nothing,
    /// This registration took over the history of a path that no longer exists.
    Moved(String),
    /// More than one dead entry claims the identity, so none was chosen.
    Ambiguous,
}

/// Whether a registered entry is a dead copy of the repository registered as `key`:
/// another path, the same identity, and no longer on disk.
pub open spec fn claims(p: (Seq<char>, EntryView), key: Seq<char>, id: Seq<char>, gone: Seq<
    Seq<char>,
>) -> bool {
    p.0 != key && p.1.identity == Some(id) && gone.contains(p.0)
}

/// The paths of the entries that claim the identity, in registry order.
pub open spec fn claimants(
    s: Seq<(Seq<char>, EntryView)>,
    key: Seq<char>,
    id: Seq<char>,
    gone: Seq<Seq<char>>,
) -> Seq<Seq<char>>
    decreases s.len(),
{
    if s.len() == 0 {
        seq![]
    } else {
        let rest = claimants(s.drop_last(), key, id, gone);
        if claims(s.last(), key, id, gone) {
            rest.push(s.last().0)
        } else {
            rest
        }
    }
}

/// The registry after the entry at `old` hands its history to the entry at `key`: the
/// old row is removed, and its added time, prune record, override and enablement move
/// across; the undo list forgets `old`.
pub open spec fn moved_history(r: RegistryView, old: Seq<char>, key: Seq<char>) -> RegistryView {
    match index_of(r.repositories, old) {
        Some(j) => {
            let prev = r.repositories[j].1;
            let rest = r.repositories.remove(j);
            let repos = match index_of(rest, key) {
                Some(i) => rest.update(
                    i,
                    (
                        key,
                        EntryView {
                            added_at: prev.added_at,
                            last_pruned_at: prev.last_pruned_at,
                            override_idle_days: prev.override_idle_days,
                            enabled: prev.enabled,
                            total_freed_bytes: prev.total_freed_bytes,
                            ..rest[i].1
                        },
                    ),
                ),
                None => rest,
            };
            RegistryView {
                repositories: repos,
                last_added_repos: without(r.last_added_repos, old),
                ..r
            }
        },
        None => r,
    }
}

/// The registry with `id` recorded against the entry at `key`, when registered.
pub open spec fn with_identity(r: RegistryView, key: Seq<char>, id: Seq<char>) -> RegistryView {
    match index_of(r.repositories, key) {
        Some(i) => RegistryView {
            repositories: r.repositories.update(
                i,
                (key, EntryView { identity: Some(id), ..r.repositories[i].1 }),
            ),
            ..r
        },
        None => r,
    }
}

/// The registry after recording identity `id` for `key`, given the registered paths
/// that no longer exist: exactly one dead claimant hands over its history first.
pub open spec fn adopted(r: RegistryView, key: Seq<char>, id: Option<Seq<char>>, gone: Seq<
    Seq<char>,
>) -> RegistryView {
    match id {
        None => r,
        Some(id) => {
            let c = claimants(r.repositories, key, id, gone);
            let r1 = if c.len() == 1 {
                moved_history(r, c[0], key)
            } else {
                r
            };
            with_identity(r1, key, id)
        },
    }
}

/// The first index whose name loosely equals `target`.
fn find_loose<V>(v: &Vec<(String, V)>, target: &str, windows: bool) -> (r: Option<usize>)
    ensures
        match r {
            Some(i) => loose_index(names_of(v@), target@, windows, 0) == Some(i as int),
            None => loose_index(names_of(v@), target@, windows, 0) is None,
        },
{
    let ghost ks = names_of(v@);
    let mut j: usize = 0;
    while j < v.len()
        invariant
            j <= v.len(),
            ks == names_of(v@),
            loose_index(ks, target@, windows, 0) == loose_index(ks, target@, windows, j as int),
        decreases v.len() - j,
    {
        if loose_path_eq(v[j].0.as_str(), target, windows) {
            return Some(j);
        }
        j = j + 1;
    }
    None
}

fn contains_name(v: &Vec<String>, x: &[char]) -> (r: bool)
    ensures
        r == text::views(v@).contains(x@),
{
    let mut i: usize = 0;
    while i < v.len()
        invariant
            i <= v.len(),
            forall|j: int| 0 <= j < i ==> text::views(v@)[j] != x@,
        decreases v.len() - i,
    {
        let c = text::chars_of(v[i].as_str());
        if text::chars_eq(&c, x) {
            assert(text::views(v@)[i as int] == x@);
            return true;
        }
        i = i + 1;
    }
    false
}

/// The undo list without the exact path `old`.
fn without_path(v: &Vec<String>, old: &[char]) -> (r: Vec<String>)
    ensures
        text::views(r@) == without(text::views(v@), old@),
{
    let ghost s = text::views(v@);
    let mut kept: Vec<String> = Vec::new();
    let mut i: usize = 0;
    while i < v.len()
        invariant
            i <= v.len(),
            s == text::views(v@),
            text::views(kept@) == without(s.take(i as int), old@),
        decreases v.len() - i,
    {
        assert(s.take(i + 1).drop_last() == s.take(i as int));
        let c = text::chars_of(v[i].as_str());
        if !text::chars_eq(&c, old) {
            let ghost prev = kept@;
            kept.push(v[i].clone());
            assert(text::views(kept@) =~= text::views(prev).push(s[i as int]));
        }
        i = i + 1;
    }
    assert(s.take(i as int) == s);
    kept
}

proof fn lemma_loose_index(ks: Seq<Seq<char>>, target: Seq<char>, windows: bool, i: int)
    requires
        0 <= i,
    ensures
        loose_index(ks, target, windows, i) matches Some(j) ==> i <= j < ks.len(),
    decreases ks.len() - i,
{
    if i < ks.len() && !loose_eq(ks[i], target, windows) {
        lemma_loose_index(ks, target, windows, i + 1);
    }
}

proof fn lemma_remove_keys<V>(s: Seq<(Seq<char>, V)>, i: int)
    requires
        0 <= i < s.len(),
        keys_of(s).no_duplicates(),
    ensures
        keys_of(s.remove(i)) == keys_of(s).remove(i),
        keys_of(s.remove(i)).no_duplicates(),
{
    assert(keys_of(s.remove(i)) =~= keys_of(s).remove(i));
    let k = keys_of(s).remove(i);
    assert forall|a: int, b: int| 0 <= a < k.len() && 0 <= b < k.len() && a != b implies k[a]
        != k[b] by {
        let a2 = if a < i { a } else { a + 1 };
        let b2 = if b < i { b } else { b + 1 };
        assert(k[a] == keys_of(s)[a2]);
        assert(k[b] == keys_of(s)[b2]);
    }
}

impl Default for Registry {
    /// An empty registry with default settings.
    fn default() -> (r: Self)
        ensures
            r.wf(),
            r@.version == REGISTRY_VERSION@,
            is_default_settings(r@.settings),
            r@.repositories.len() == 0,
            r@.total_freed_bytes == 0,
            r@.total_cache_freed_bytes == 0,
            r@.total_pruned_count == 0,
            r@.last_added_repos.len() == 0,
            r@.last_prune is None,
            r@.prune_history.len() == 0,
            r@.last_update_check is None,
            r@.latest_known_version is None,
            r@.restore_rates.len() == 0,
    {
        Registry::new()
    }
}

impl Registry {
    /// An empty registry.
    pub fn new() -> (r: Self)
        ensures
            r.wf(),
            r@.version == REGISTRY_VERSION@,
            is_default_settings(r@.settings),
            r@.repositories.len() == 0,
            r@.total_freed_bytes == 0,
            r@.total_cache_freed_bytes == 0,
            r@.total_pruned_count == 0,
            r@.last_added_repos.len() == 0,
            r@.last_prune is None,
            r@.prune_history.len() == 0,
            r@.last_update_check is None,
            r@.latest_known_version is None,
            r@.restore_rates.len() == 0,
    {
        let r = Registry {
            version: text::owned(REGISTRY_VERSION),
            settings: Settings::default(),
            repositories: Vec::new(),
            total_freed_bytes: 0,
            total_cache_freed_bytes: 0,
            total_pruned_count: 0,
            last_added_repos: Vec::new(),
            last_prune: None,
            prune_history: Vec::new(),
            last_update_check: None,
            latest_known_version: None,
            restore_rates: Vec::new(),
        };
        assert(keys_of(r@.repositories) =~= Seq::<Seq<char>>::empty());
        assert(keys_of(r@.restore_rates) =~= Seq::<Seq<char>>::empty());
        r
    }

    /// Returns the number of registered repositories.
    pub fn repo_count(&self) -> (n: usize)
        ensures
            n == self@.repositories.len(),
    {
        self.repositories.len()
    }

    /// Adds a repository under its canonical key `key`, registered at `now`. Returns
    /// `true` if newly added, `false` (changing nothing) if already present.
    pub fn add_repo(&mut self, key: &str, now: i64) -> (added_new: bool)
        requires
            old(self).wf(),
        ensures
            final(self).wf(),
            (final(self)@, added_new) == added(old(self)@, key@, now),
    {
        let k = text::chars_of(key);
        let found = find_key(&self.repositories, &k);
        proof {
            lemma_repo_names(self.repositories@);
            lemma_index_of(self@.repositories, key@);
        }
        if found.is_some() {
            return false;
        }
        let ghost before = self@;
        self.repositories.push((text::owned(key), RepoEntry::new(now)));
        assert(self@.repositories =~= before.repositories.push((key@, new_entry(now))));
        assert(keys_of(self@.repositories) =~= keys_of(before.repositories).push(key@));
        assert(self@ =~= added(before, key@, now).0);
        true
    }

    /// Whether the repository under `key` is registered and has no identity yet.
    pub fn needs_identity(&self, key: &str) -> (r: bool)
        ensures
            r == match index_of(self@.repositories, key@) {
                Some(i) => self@.repositories[i].1.identity is None,
                None => false,
            },
    {
        let k = text::chars_of(key);
        proof {
            lemma_repo_names(self.repositories@);
            lemma_index_of(self@.repositories, key@);
        }
        match find_key(&self.repositories, &k) {
            Some(i) => {
                self.repositories[i].1.identity.is_none()
            },
            None => false,
        }
    }

    /// Credit `bytes_freed` to the repository under `key` (stamping it pruned at `now`)
    /// and to the machine-wide total. Safe to call per repository or per directory:
    /// everything it touches is a sum or a timestamp. It does not count passes.
    pub fn mark_pruned(&mut self, key: &str, bytes_freed: u64, now: i64)
        requires
            old(self).wf(),
            credit_fits(old(self)@, key@, bytes_freed),
        ensures
            final(self).wf(),
            final(self)@ == credited(old(self)@, key@, bytes_freed, now),
    {
        let ghost before = self@;
        let k = text::chars_of(key);
        proof {
            lemma_repo_names(self.repositories@);
            lemma_index_of(self@.repositories, key@);
        }
        match find_key(&self.repositories, &k) {
            Some(i) => {
                let (name, mut entry) = self.repositories.remove(i);
                entry.last_pruned_at = Some(now);
                entry.total_freed_bytes = entry.total_freed_bytes + bytes_freed;
                self.repositories.insert(i, (name, entry));
                assert(self@.repositories =~= credited(before, key@, bytes_freed, now).repositories);
                assert(keys_of(self@.repositories) =~= keys_of(before.repositories));
            },
            None => {},
        }
        self.total_freed_bytes = self.total_freed_bytes + bytes_freed;
        assert(self@ =~= credited(before, key@, bytes_freed, now));
    }

    /// Fold one measured restore of `adapter` into its running average. Anything too
    /// quick to have been real work, or that put nothing back, is ignored.
    pub fn record_restore(&mut self, adapter: &str, bytes: u64, millis: u64)
        requires
            old(self).wf(),
        ensures
            final(self).wf(),
            final(self)@ == restored(old(self)@, adapter@, bytes, millis),
    {
        if bytes == 0 || millis < RESTORE_RATE_MIN_MILLIS {
            return;
        }
        let ghost before = self@;
        let k = text::chars_of(adapter);
        proof {
            lemma_rate_names(self.restore_rates@);
            lemma_index_of(self@.restore_rates, adapter@);
        }
        match find_key(&self.restore_rates, &k) {
            Some(i) => {
                let (name, rate) = self.restore_rates.remove(i);
                let next = fold_rate(rate, bytes, millis);
                self.restore_rates.insert(i, (name, next));
                assert(self@.restore_rates =~= restored(before, adapter@, bytes, millis).restore_rates);
                assert(keys_of(self@.restore_rates) =~= keys_of(before.restore_rates));
            },
            None => {
                let next = fold_rate(RestoreRate { samples: 0, bytes: 0, millis: 0 }, bytes, millis);
                self.restore_rates.push((text::owned(adapter), next));
                assert(self@.restore_rates =~= restored(before, adapter@, bytes, millis).restore_rates);
                assert(keys_of(self@.restore_rates) =~= keys_of(before.restore_rates).push(adapter@));
            },
        }
        assert(self@ =~= restored(before, adapter@, bytes, millis));
    }

    /// Record the progress of the pass started at `at`, which has so far deleted
    /// `dirs`, superseding this same pass's earlier record.
    ///
    /// A repeated call with the same `at` replaces the history entry and record it
    /// wrote before instead of counting a second pass, so a long pass can persist after
    /// every repository; a pass that deleted nothing leaves the record of the last one
    /// that did.
    pub fn record_prune_progress(&mut self, at: i64, dirs: Vec<PrunedDir>)
        requires
            old(self).wf(),
            progress_fits(old(self)@, at, dirs_view(dirs@)),
        ensures
            final(self).wf(),
            final(self)@ == progressed(old(self)@, at, dirs_view(dirs@)),
    {
        if dirs.len() == 0 {
            return;
        }
        let ghost before = self@;
        let ghost d = dirs_view(dirs@);
        let bytes = total_size(&dirs);
        let repos = count_repos(&dirs);
        let n = dirs.len();
        let same = self.prune_history.len() > 0
            && self.prune_history[self.prune_history.len() - 1].at == at;
        if same {
            self.prune_history.pop();
        } else {
            self.total_pruned_count = self.total_pruned_count + 1;
        }
        self.prune_history.push(
            PruneRunSummary { at, bytes_freed: bytes, dirs_removed: n, repos_touched: repos },
        );
        if self.prune_history.len() > PRUNE_HISTORY_LIMIT {
            let excess = self.prune_history.len() - PRUNE_HISTORY_LIMIT;
            let kept = self.prune_history.split_off(excess);
            self.prune_history = kept;
        }
        self.last_prune = Some(LastPrune { at, dirs });
        assert(self@.prune_history =~= progressed(before, at, d).prune_history);
        assert(self@ =~= progressed(before, at, d));
    }

    /// Removes a repository. `key` is its canonical form; `target` is the lexical
    /// absolute form of what was asked for, which is all a deleted directory can still
    /// be named by; `windows` whether paths compare without case. Returns `true` if an
    /// entry was removed, in which case every spelling of the target leaves the undo
    /// list too.
    pub fn remove_repo(&mut self, key: &str, target: &str, windows: bool) -> (was_present: bool)
        requires
            old(self).wf(),
        ensures
            final(self).wf(),
            (final(self)@, was_present) == removed(old(self)@, key@, target@, windows),
    {
        let ghost before = self@;
        let k = text::chars_of(key);
        proof {
            lemma_repo_names(self.repositories@);
            lemma_index_of(self@.repositories, key@);
        }
        let index = match find_key(&self.repositories, &k) {
            Some(i) => i,
            None => match find_loose(&self.repositories, target, windows) {
                Some(i) => i,
                None => {
                    return false;
                },
            },
        };
        proof {
            lemma_loose_index(keys_of(before.repositories), target@, windows, 0);
        }
        assert(removal_index(before, key@, target@, windows) == Some(index as int));
        self.repositories.remove(index);
        proof {
            lemma_remove_keys(before.repositories, index as int);
        }
        assert(self@.repositories =~= before.repositories.remove(index as int));
        let mut kept: Vec<String> = Vec::new();
        let mut i: usize = 0;
        let ghost undo = before.last_added_repos;
        while i < self.last_added_repos.len()
            invariant
                i <= self.last_added_repos.len(),
                undo == text::views(self.last_added_repos@),
                text::views(kept@) == retain_unlike(undo.take(i as int), target@, windows),
            decreases self.last_added_repos.len() - i,
        {
            assert(undo.take(i + 1).drop_last() == undo.take(i as int));
            assert(undo[i as int] == self.last_added_repos@[i as int]@);
            if !loose_path_eq(self.last_added_repos[i].as_str(), target, windows) {
                let ghost prev = kept@;
                kept.push(self.last_added_repos[i].clone());
                assert(text::views(kept@) =~= text::views(prev).push(undo[i as int]));
            }
            i = i + 1;
        }
        assert(undo.take(i as int) == undo);
        self.last_added_repos = kept;
        assert(self@ =~= removed(before, key@, target@, windows).0);
        true
    }

    /// Record `identity` (the repository's root commit) against the repository
    /// registered as `key`, and hand it the history of the entry it moved away from.
    ///
    /// `gone` lists the registered paths that no longer exist on disk. When exactly one
    /// of them carries the same identity, that entry is the same repository at its old
    /// location: its history moves across and the dead row is removed. Two dead
    /// entries claiming one identity is a clone, not a move, so nothing is guessed.
    pub fn adopt_moved_entry(&mut self, key: &str, identity: Option<&str>, gone: &Vec<String>) -> (a:
        Adoption)
        requires
            old(self).wf(),
        ensures
            final(self).wf(),
            final(self)@ == adopted(
                old(self)@,
                key@,
                match identity {
                    Some(i) => Some(i@),
                    None => None,
                },
                text::views(gone@),
            ),
            match a {
                Adoption::Nothing => match identity {
                    Some(i) => claimants(old(self)@.repositories, key@, i@, text::views(gone@)).len()
                        == 0,
                    None => true,
                },
                Adoption::Moved(p) => match identity {
                    Some(i) => {
                        let c = claimants(old(self)@.repositories, key@, i@, text::views(gone@));
                        c.len() == 1 && p@ == c[0]
                    },
                    None => false,
                },
                Adoption::Ambiguous => match identity {
                    Some(i) => claimants(old(self)@.repositories, key@, i@, text::views(gone@)).len()
                        > 1,
                    None => false,
                },
            },
    {
        let ghost before = self@;
        let id = match identity {
            Some(i) => i,
            None => return Adoption::Nothing,
        };
        let found = self.claimants_of(key, id, gone);
        let result = if found.len() == 1 {
            let old_path = text::chars_of(found[0].as_str());
            self.move_history(&old_path, key);
            Adoption::Moved(found[0].clone())
        } else if found.len() == 0 {
            Adoption::Nothing
        } else {
            Adoption::Ambiguous
        };
        self.set_identity(key, id);
        result
    }

    /// The registered paths that are dead copies of the repository at `key`.
    fn claimants_of(&self, key: &str, id: &str, gone: &Vec<String>) -> (found: Vec<String>)
        ensures
            text::views(found@) == claimants(self@.repositories, key@, id@, text::views(gone@)),
    {
        let idv = text::chars_of(id);
        let k = text::chars_of(key);
        let ghost g = text::views(gone@);
        let ghost repos = self@.repositories;
        let mut found: Vec<String> = Vec::new();
        let mut i: usize = 0;
        while i < self.repositories.len()
            invariant
                i <= self.repositories.len(),
                repos == self@.repositories,
                g == text::views(gone@),
                idv@ == id@,
                k@ == key@,
                text::views(found@) == claimants(repos.take(i as int), key@, id@, g),
            decreases self.repositories.len() - i,
        {
            assert(repos.take(i + 1).drop_last() == repos.take(i as int));
            assert(repos[i as int] == (self.repositories@[i as int].0@, self.repositories@[i as int].1@));
            let name = text::chars_of(self.repositories[i].0.as_str());
            let same_id = match &self.repositories[i].1.identity {
                Some(x) => {
                    let xv = text::chars_of(x.as_str());
                    text::chars_eq(&xv, &idv)
                },
                None => false,
            };
            if !text::chars_eq(&name, &k) && same_id && contains_name(gone, &name) {
                let ghost prev = found@;
                found.push(self.repositories[i].0.clone());
                assert(text::views(found@) =~= text::views(prev).push(repos[i as int].0));
            }
            i = i + 1;
        }
        assert(repos.take(i as int) == repos);
        found
    }

    /// Hand the history of the entry at `dead` to the entry at `key`.
    fn move_history(&mut self, dead: &[char], key: &str)
        requires
            old(self).wf(),
        ensures
            final(self).wf(),
            final(self)@ == moved_history(old(self)@, dead@, key@),
    {
        let ghost before = self@;
        proof {
            lemma_repo_names(self.repositories@);
            lemma_index_of(self@.repositories, dead@);
        }
        let j = match find_key(&self.repositories, dead) {
            Some(j) => j,
            None => return,
        };
        let (_old_name, prev) = self.repositories.remove(j);
        proof {
            lemma_remove_keys(before.repositories, j as int);
        }
        assert(self@.repositories =~= before.repositories.remove(j as int));
        let ghost mid = self@;
        let k = text::chars_of(key);
        proof {
            lemma_repo_names(self.repositories@);
            lemma_index_of(self@.repositories, key@);
        }
        match find_key(&self.repositories, &k) {
            Some(t) => {
                let (name, mut entry) = self.repositories.remove(t);
                entry.added_at = prev.added_at;
                entry.last_pruned_at = prev.last_pruned_at;
                entry.override_idle_days = prev.override_idle_days;
                entry.enabled = prev.enabled;
                entry.total_freed_bytes = prev.total_freed_bytes;
                self.repositories.insert(t, (name, entry));
                assert(self@.repositories =~= moved_history(before, dead@, key@).repositories);
                assert(keys_of(self@.repositories) =~= keys_of(mid.repositories));
            },
            None => {
                assert(self@.repositories =~= moved_history(before, dead@, key@).repositories);
            },
        }
        self.last_added_repos = without_path(&self.last_added_repos, dead);
        assert(self@ =~= moved_history(before, dead@, key@));
    }

    /// Record `id` against the entry at `key`, when registered.
    fn set_identity(&mut self, key: &str, id: &str)
        requires
            old(self).wf(),
        ensures
            final(self).wf(),
            final(self)@ == with_identity(old(self)@, key@, id@),
    {
        let ghost r1 = self@;
        let k = text::chars_of(key);
        proof {
            lemma_repo_names(self.repositories@);
            lemma_index_of(self@.repositories, key@);
        }
        match find_key(&self.repositories, &k) {
            Some(t) => {
                let (name, mut entry) = self.repositories.remove(t);
                entry.identity = Some(text::owned(id));
                self.repositories.insert(t, (name, entry));
                assert(self@.repositories =~= with_identity(r1, key@, id@).repositories);
                assert(keys_of(self@.repositories) =~= keys_of(r1.repositories));
            },
            None => {},
        }
        assert(self@ =~= with_identity(r1, key@, id@));
    }

    /// Credit `bytes` to the machine's running cache-clear total, which is kept apart
    /// from what prunes freed.
    pub fn record_cache_clear(&mut self, bytes: u64)
        requires
            old(self).wf(),
            old(self)@.total_cache_freed_bytes + bytes <= u64::MAX,
        ensures
            final(self).wf(),
            final(self)@ == cache_cleared(old(self)@, bytes),
    {
        let ghost before = self@;
        self.total_cache_freed_bytes = self.total_cache_freed_bytes + bytes;
        assert(self@ =~= cache_cleared(before, bytes));
    }

    /// Undo the most recent `init` or `link`: unregister each path it added, in order,
    /// and empty the list. Returns the paths that were still registered; a path already
    /// unlinked since is not claimed as undone.
    pub fn undo_additions(&mut self, windows: bool) -> (undone_paths: Vec<String>)
        requires
            old(self).wf(),
        ensures
            final(self).wf(),
            final(self)@ == (RegistryView {
                last_added_repos: seq![],
                ..undone(old(self)@, old(self)@.last_added_repos, windows).0
            }),
            text::views(undone_paths@) == undone(old(self)@, old(self)@.last_added_repos, windows).1,
    {
        let ghost start = self@;
        let paths = self.last_added_repos.clone();
        let ghost ps = text::views(paths@);
        assert(ps == start.last_added_repos) by {
            assert(ps =~= start.last_added_repos);
        }
        let mut out: Vec<String> = Vec::new();
        let mut i: usize = 0;
        while i < paths.len()
            invariant
                i <= paths.len(),
                ps == text::views(paths@),
                ps == start.last_added_repos,
                self.wf(),
                (self@, text::views(out@)) == undone(start, ps.take(i as int), windows),
            decreases paths.len() - i,
        {
            assert(ps.take(i + 1).drop_last() == ps.take(i as int));
            assert(ps.take(i + 1).last() == paths@[i as int]@);
            let ghost prev = text::views(out@);
            if self.remove_repo(paths[i].as_str(), paths[i].as_str(), windows) {
                out.push(paths[i].clone());
                assert(text::views(out@) =~= prev.push(paths@[i as int]@));
            }
            i = i + 1;
        }
        assert(ps.take(i as int) == ps);
        let ghost mid = self@;
        self.last_added_repos = Vec::new();
        assert(self@ =~= RegistryView { last_added_repos: seq![], ..mid });
        out
    }
}

/// What an undo says it did: nothing claimed when every path had already been
/// unlinked, else how many repositories it unregistered.
pub open spec fn undo_summary_text(n: nat) -> Seq<char> {
    if n == 0 {
        "Those repositories were already unregistered; nothing to undo."@
    } else {
        "Unregistered "@ + text::decimal(n) + (if n == 1 {
            " repository."@
        } else {
            " repositories."@
        })
    }
}

/// What an undo says it did.
pub fn undo_summary(n: u64) -> (r: String)
    ensures
        r@ == undo_summary_text(n as nat),
{
    if n == 0 {
        return text::owned("Those repositories were already unregistered; nothing to undo.");
    }
    let mut v: Vec<char> = Vec::new();
    text::push_str(&mut v, "Unregistered ");
    let d = text::decimal_chars(n);
    text::push_all(&mut v, &d);
    text::push_str(&mut v, if n == 1 { " repository." } else { " repositories." });
    text::string_of(&v)
}

/// The registry and the paths unregistered after undoing the additions `paths`, one
/// at a time in order, each under its own spelling.
pub open spec fn undone(r: RegistryView, paths: Seq<Seq<char>>, windows: bool) -> (
    RegistryView,
    Seq<Seq<char>>,
)
    decreases paths.len(),
{
    if paths.len() == 0 {
        (r, seq![])
    } else {
        let (r1, out) = undone(r, paths.drop_last(), windows);
        let (r2, was) = removed(r1, paths.last(), paths.last(), windows);
        (r2, if was { out.push(paths.last()) } else { out })
    }
}

// ---------------------------------------------------------------------------------
// Per-repository configuration
// ---------------------------------------------------------------------------------

/// The committed per-repository config file, whose named keys win.
pub const PROJECT_REPO_CONFIG_FILE: &'static str = "project.devprune.json";

/// The git-excluded per-repository config file, which answers the rest.
pub const PER_REPO_CONFIG_FILE: &'static str = ".devprune.json";

/// A directory a repository declares rebuildable.
pub struct DeclaredDir {
    /// Repository-relative path.
    pub path: String,
    /// The command that rebuilds it.
    pub rebuild: String,
    /// Why it is safe to delete, for the person reading the file.
    pub why: Option<String>,
}

/// The abstract value of a [`DeclaredDir`].
pub struct DeclaredDirView {
    pub path: Seq<char>,
    pub rebuild: Seq<char>,
    pub why: Option<Seq<char>>,
}

impl View for DeclaredDir {
    type V = DeclaredDirView;

    open spec fn view(&self) -> DeclaredDirView {
        DeclaredDirView { path: self.path@, rebuild: self.rebuild@, why: text::opt_view(self.why) }
    }
}

impl DeclaredDir {
    /// A copy of this declaration.
    pub fn copy(&self) -> (r: Self)
        ensures
            r@ == self@,
    {
        DeclaredDir {
            path: self.path.clone(),
            rebuild: self.rebuild.clone(),
            why: match &self.why {
                Some(w) => Some(w.clone()),
                None => None,
            },
        }
    }
}

/// The `prunable` section: declared directories, and paths excluded from pruning.
pub struct Prunable {
    pub directories: Vec<DeclaredDir>,
    pub exclude: Vec<String>,
}

/// The abstract value of a [`Prunable`].
pub struct PrunableView {
    pub directories: Seq<DeclaredDirView>,
    pub exclude: Seq<Seq<char>>,
}

/// The abstract values of a list of declarations.
pub open spec fn decls_view(d: Seq<DeclaredDir>) -> Seq<DeclaredDirView> {
    d.map_values(|x: DeclaredDir| x@)
}

impl View for Prunable {
    type V = PrunableView;

    open spec fn view(&self) -> PrunableView {
        PrunableView {
            directories: decls_view(self.directories@),
            exclude: text::views(self.exclude@),
        }
    }
}

/// The abstract value of an optional `prunable` section.
pub open spec fn opt_prunable(p: Option<Prunable>) -> Option<PrunableView> {
    match p {
        Some(x) => Some(x@),
        None => None,
    }
}

fn copy_decls(d: &Vec<DeclaredDir>) -> (r: Vec<DeclaredDir>)
    ensures
        decls_view(r@) == decls_view(d@),
{
    let mut r: Vec<DeclaredDir> = Vec::new();
    let mut i: usize = 0;
    while i < d.len()
        invariant
            i <= d.len(),
            decls_view(r@) == decls_view(d@).take(i as int),
        decreases d.len() - i,
    {
        let ghost prev = r@;
        let c = d[i].copy();
        assert(c@ == d@[i as int]@);
        r.push(c);
        assert(decls_view(r@) =~= decls_view(prev).push(d@[i as int]@));
        assert(decls_view(d@).take(i + 1) =~= decls_view(d@).take(i as int).push(d@[i as int]@));
        i = i + 1;
    }
    assert(decls_view(d@).take(i as int) == decls_view(d@));
    r
}

fn copy_strings(v: &Vec<String>) -> (r: Vec<String>)
    ensures
        text::views(r@) == text::views(v@),
{
    let mut r: Vec<String> = Vec::new();
    let mut i: usize = 0;
    while i < v.len()
        invariant
            i <= v.len(),
            text::views(r@) == text::views(v@).take(i as int),
        decreases v.len() - i,
    {
        let ghost prev = r@;
        let c = v[i].clone();
        r.push(c);
        assert(text::views(r@) =~= text::views(prev).push(v@[i as int]@));
        assert(text::views(v@).take(i + 1) =~= text::views(v@).take(i as int).push(v@[i as int]@));
        i = i + 1;
    }
    assert(text::views(v@).take(i as int) == text::views(v@));
    r
}

impl Prunable {
    /// A copy of this section.
    pub fn copy(&self) -> (r: Self)
        ensures
            r@ == self@,
    {
        Prunable { directories: copy_decls(&self.directories), exclude: copy_strings(&self.exclude) }
    }
}

/// Structured per-repository configuration, as either config file holds it.
pub struct PerRepoConfig {
    /// JSON Schema reference for editors.
    pub schema: String,
    /// Display name overriding the directory name.
    pub project_name: Option<String>,
    /// Whether the repository is never pruned.
    pub ignore: bool,
    /// Whether hook-triggered passes skip it.
    pub disable_hooks: bool,
    /// Whether scheduled passes skip it.
    pub disable_daemon: bool,
    /// Idle threshold override, in days.
    pub override_idle_days: Option<u64>,
    /// Smallest directory worth pruning, in megabytes.
    pub min_size_mb: Option<u64>,
    /// How deep to look for projects inside it.
    pub scan_depth: Option<usize>,
    /// Declared rebuildable directories and exclusions.
    pub prunable: Option<Prunable>,
}

/// The abstract value of a [`PerRepoConfig`].
pub struct ConfigView {
    pub schema: Seq<char>,
    pub project_name: Option<Seq<char>>,
    pub ignore: bool,
    pub disable_hooks: bool,
    pub disable_daemon: bool,
    pub override_idle_days: Option<u64>,
    pub min_size_mb: Option<u64>,
    pub scan_depth: Option<usize>,
    pub prunable: Option<PrunableView>,
}

impl View for PerRepoConfig {
    type V = ConfigView;

    open spec fn view(&self) -> ConfigView {
        ConfigView {
            schema: self.schema@,
            project_name: text::opt_view(self.project_name),
            ignore: self.ignore,
            disable_hooks: self.disable_hooks,
            disable_daemon: self.disable_daemon,
            override_idle_days: self.override_idle_days,
            min_size_mb: self.min_size_mb,
            scan_depth: self.scan_depth,
            prunable: opt_prunable(self.prunable),
        }
    }
}

/// The configuration a repository has when neither file says anything.
pub open spec fn default_config(schema: Seq<char>) -> ConfigView {
    ConfigView {
        schema,
        project_name: None,
        ignore: false,
        disable_hooks: false,
        disable_daemon: false,
        override_idle_days: None,
        min_size_mb: None,
        scan_depth: None,
        prunable: None,
    }
}

fn copy_opt_string(s: &Option<String>) -> (r: Option<String>)
    ensures
        text::opt_view(r) == text::opt_view(*s),
{
    match s {
        Some(x) => Some(x.clone()),
        None => None,
    }
}

impl PerRepoConfig {
    /// The defaults, with `schema` as the schema reference (a local copy when this
    /// machine has one, the published URL otherwise).
    pub fn with_defaults(schema: &str) -> (r: Self)
        ensures
            r@ == default_config(schema@),
    {
        PerRepoConfig {
            schema: text::owned(schema),
            project_name: None,
            ignore: false,
            disable_hooks: false,
            disable_daemon: false,
            override_idle_days: None,
            min_size_mb: None,
            scan_depth: None,
            prunable: None,
        }
    }

    /// A copy of this configuration.
    pub fn copy(&self) -> (r: Self)
        ensures
            r@ == self@,
    {
        PerRepoConfig {
            schema: self.schema.clone(),
            project_name: copy_opt_string(&self.project_name),
            ignore: self.ignore,
            disable_hooks: self.disable_hooks,
            disable_daemon: self.disable_daemon,
            override_idle_days: self.override_idle_days,
            min_size_mb: self.min_size_mb,
            scan_depth: self.scan_depth,
            prunable: match &self.prunable {
                Some(p) => Some(p.copy()),
                None => None,
            },
        }
    }
}

/// Which of a repository's two config files an effective value came from.
#[derive(Clone, Copy, PartialEq, Eq, Structural, Debug)]
pub enum ConfigSource {
    /// Spelled out in the committed file.
    Project,
    /// Spelled out in the git-excluded file.
    Personal,
    /// In neither file.
    Default,
}

/// Where a setting's answer came from, as shown to the user.
pub open spec fn source_label(s: ConfigSource) -> Seq<char> {
    match s {
        ConfigSource::Project => PROJECT_REPO_CONFIG_FILE@,
        ConfigSource::Personal => PER_REPO_CONFIG_FILE@,
        ConfigSource::Default => "global setting"@,
    }
}

impl ConfigSource {
    /// The file this answer came from, or where to look when it came from no file.
    pub fn label(self) -> (r: &'static str)
        ensures
            r@ == source_label(self),
    {
        match self {
            ConfigSource::Project => PROJECT_REPO_CONFIG_FILE,
            ConfigSource::Personal => PER_REPO_CONFIG_FILE,
            ConfigSource::Default => "global setting",
        }
    }
}

/// `dirs` with each of `extra` appended whose path is not yet among them.
pub open spec fn add_dirs(dirs: Seq<DeclaredDirView>, extra: Seq<DeclaredDirView>) -> Seq<
    DeclaredDirView,
>
    decreases extra.len(),
{
    if extra.len() == 0 {
        dirs
    } else {
        let acc = add_dirs(dirs, extra.drop_last());
        if dir_paths(acc).contains(extra.last().path) {
            acc
        } else {
            acc.push(extra.last())
        }
    }
}

/// The paths of a list of declarations.
pub open spec fn dir_paths(d: Seq<DeclaredDirView>) -> Seq<Seq<char>> {
    d.map_values(|x: DeclaredDirView| x.path)
}

/// `names` with each of `extra` appended that is not yet among them.
pub open spec fn add_names(names: Seq<Seq<char>>, extra: Seq<Seq<char>>) -> Seq<Seq<char>>
    decreases extra.len(),
{
    if extra.len() == 0 {
        names
    } else {
        let acc = add_names(names, extra.drop_last());
        if acc.contains(extra.last()) {
            acc
        } else {
            acc.push(extra.last())
        }
    }
}

/// Both files' declarations, the committed ones first, one entry per path, and both
/// files' exclusions; `None` when that leaves nothing.
pub open spec fn merged_declarations(project: Option<PrunableView>, personal: Option<PrunableView>) -> Option<
    PrunableView,
> {
    let pd = match project {
        Some(p) => p.directories,
        None => seq![],
    };
    let pe = match project {
        Some(p) => p.exclude,
        None => seq![],
    };
    let qd = match personal {
        Some(p) => p.directories,
        None => seq![],
    };
    let qe = match personal {
        Some(p) => p.exclude,
        None => seq![],
    };
    let directories = add_dirs(pd, qd);
    let exclude = add_names(pe, qe);
    if directories.len() == 0 && exclude.len() == 0 {
        None
    } else {
        Some(PrunableView { directories, exclude })
    }
}

fn has_dir_path(dirs: &Vec<DeclaredDir>, path: &String) -> (r: bool)
    ensures
        r == dir_paths(decls_view(dirs@)).contains(path@),
{
    let pv = text::chars_of(path.as_str());
    let mut i: usize = 0;
    while i < dirs.len()
        invariant
            i <= dirs.len(),
            pv@ == path@,
            forall|j: int| 0 <= j < i ==> dir_paths(decls_view(dirs@))[j] != path@,
        decreases dirs.len() - i,
    {
        let d = text::chars_of(dirs[i].path.as_str());
        if text::chars_eq(&d, &pv) {
            assert(dir_paths(decls_view(dirs@))[i as int] == path@);
            return true;
        }
        i = i + 1;
    }
    false
}

fn has_name(names: &Vec<String>, x: &String) -> (r: bool)
    ensures
        r == text::views(names@).contains(x@),
{
    let xv = text::chars_of(x.as_str());
    contains_name(names, &xv)
}

/// Both files' declarations, committed first, deduplicated by path; both files'
/// exclusions, deduplicated.
fn merge_declarations(project: Option<&Prunable>, personal: Option<&Prunable>) -> (r: Option<
    Prunable,
>)
    ensures
        opt_prunable(r) == merged_declarations(
            match project {
                Some(p) => Some(p@),
                None => None,
            },
            match personal {
                Some(p) => Some(p@),
                None => None,
            },
        ),
{
    let mut directories: Vec<DeclaredDir> = match project {
        Some(p) => copy_decls(&p.directories),
        None => Vec::new(),
    };
    let mut exclude: Vec<String> = match project {
        Some(p) => copy_strings(&p.exclude),
        None => Vec::new(),
    };
    let ghost pd = decls_view(directories@);
    let ghost pe = text::views(exclude@);
    assert(decls_view(Seq::<DeclaredDir>::empty()) =~= Seq::<DeclaredDirView>::empty());
    assert(text::views(Seq::<String>::empty()) =~= Seq::<Seq<char>>::empty());
    assert(pd == match project {
        Some(p) => p@.directories,
        None => seq![],
    });
    assert(pe == match project {
        Some(p) => p@.exclude,
        None => seq![],
    });
    match personal {
        Some(q) => {
            let ghost qd = decls_view(q.directories@);
            let mut i: usize = 0;
            while i < q.directories.len()
                invariant
                    i <= q.directories.len(),
                    qd == decls_view(q.directories@),
                    decls_view(directories@) == add_dirs(pd, qd.take(i as int)),
                decreases q.directories.len() - i,
            {
                assert(qd.take(i + 1).drop_last() == qd.take(i as int));
                assert(qd.take(i + 1).last() == q.directories@[i as int]@);
                if !has_dir_path(&directories, &q.directories[i].path) {
                    let ghost prev = directories@;
                    directories.push(q.directories[i].copy());
                    assert(decls_view(directories@) =~= decls_view(prev).push(qd[i as int]));
                }
                i = i + 1;
            }
            assert(qd.take(i as int) == qd);
            let ghost qe = text::views(q.exclude@);
            let mut j: usize = 0;
            while j < q.exclude.len()
                invariant
                    j <= q.exclude.len(),
                    qe == text::views(q.exclude@),
                    text::views(exclude@) == add_names(pe, qe.take(j as int)),
                decreases q.exclude.len() - j,
            {
                assert(qe.take(j + 1).drop_last() == qe.take(j as int));
                if !has_name(&exclude, &q.exclude[j]) {
                    let ghost prev = exclude@;
                    exclude.push(q.exclude[j].clone());
                    assert(text::views(exclude@) =~= text::views(prev).push(qe[j as int]));
                }
                j = j + 1;
            }
            assert(qe.take(j as int) == qe);
        },
        None => {
            assert(add_dirs(pd, seq![]) == pd);
            assert(add_names(pe, seq![]) == pe);
        },
    }
    if directories.len() == 0 && exclude.len() == 0 {
        None
    } else {
        Some(Prunable { directories, exclude })
    }
}

/// One config file as read: its values, and the keys it actually spells out (a value
/// the deserializer filled in is not something anybody wrote down).
pub struct ConfigLayer {
    pub config: PerRepoConfig,
    pub keys: Vec<String>,
}

/// The abstract value of a layer: its configuration and the keys it names.
pub open spec fn layer_view(l: Option<ConfigLayer>) -> Option<(ConfigView, Seq<Seq<char>>)> {
    match l {
        Some(x) => Some((x.config@, text::views(x.keys@))),
        None => None,
    }
}

/// A repository's configuration as the two files that can contribute to it. The
/// project file wins every scalar key it names, the personal file answers the rest,
/// and the declared directories and exclusions of both add up.
pub struct RepoConfigLayers {
    /// The committed file, if there is one.
    pub project: Option<ConfigLayer>,
    /// The git-excluded file, if there is one.
    pub personal: Option<ConfigLayer>,
}

/// The answer for one key: the project's when it named the key, the base's otherwise.
pub open spec fn pick<T>(said: bool, project: T, base: T) -> T {
    if said {
        project
    } else {
        base
    }
}

/// The merged configuration of two layers, or `None` when there is neither file.
pub open spec fn effective_of(
    project: Option<(ConfigView, Seq<Seq<char>>)>,
    personal: Option<(ConfigView, Seq<Seq<char>>)>,
    default_schema: Seq<char>,
) -> Option<ConfigView> {
    if project is None && personal is None {
        None
    } else {
        let base = match personal {
            Some(q) => q.0,
            None => default_config(default_schema),
        };
        match project {
            None => Some(base),
            Some(pk) => {
                let p = pk.0;
                let keys = pk.1;
                Some(
                    ConfigView {
                        schema: base.schema,
                        project_name: pick(
                            keys.contains("project_name"@),
                            p.project_name,
                            base.project_name,
                        ),
                        ignore: pick(keys.contains("ignore"@), p.ignore, base.ignore),
                        disable_hooks: pick(
                            keys.contains("disable_hooks"@),
                            p.disable_hooks,
                            base.disable_hooks,
                        ),
                        disable_daemon: pick(
                            keys.contains("disable_daemon"@),
                            p.disable_daemon,
                            base.disable_daemon,
                        ),
                        override_idle_days: pick(
                            keys.contains("override_idle_days"@),
                            p.override_idle_days,
                            base.override_idle_days,
                        ),
                        min_size_mb: pick(
                            keys.contains("min_size_mb"@),
                            p.min_size_mb,
                            base.min_size_mb,
                        ),
                        scan_depth: pick(keys.contains("scan_depth"@), p.scan_depth, base.scan_depth),
                        prunable: merged_declarations(p.prunable, base.prunable),
                    },
                )
            },
        }
    }
}

/// Which file spelled a key out, in precedence order.
pub open spec fn source_of_key(
    project: Option<(ConfigView, Seq<Seq<char>>)>,
    personal: Option<(ConfigView, Seq<Seq<char>>)>,
    key: Seq<char>,
) -> ConfigSource {
    if project matches Some(p) && p.1.contains(key) {
        ConfigSource::Project
    } else if personal matches Some(q) && q.1.contains(key) {
        ConfigSource::Personal
    } else {
        ConfigSource::Default
    }
}

impl RepoConfigLayers {
    /// Both files as read: `Err` with the committed file's reason when it exists and
    /// does not parse, else with the personal file's.
    pub fn load(project: Result<Option<ConfigLayer>, String>, personal: Result<
        Option<ConfigLayer>,
        String,
    >) -> (r: Result<Self, String>)
        ensures
            match r {
                Ok(l) => project matches Ok(p) && personal matches Ok(q) && layer_view(l.project)
                    == layer_view(p) && layer_view(l.personal) == layer_view(q),
                Err(e) => match project {
                    Err(pe) => e@ == pe@,
                    Ok(_) => personal matches Err(qe) && e@ == qe@,
                },
            },
    {
        let p = match project {
            Ok(p) => p,
            Err(e) => return Err(e),
        };
        let q = match personal {
            Ok(q) => q,
            Err(e) => return Err(e),
        };
        Ok(RepoConfigLayers { project: p, personal: q })
    }

    /// Both files as read from their text: `project_content` and `personal_content`
    /// are what reading `project_path` and `personal_path` gave (see [`read_layer`]).
    /// A missing file is an absent layer; the committed file's refusal comes first.
    pub fn from_files(
        project_path: &str,
        project_content: Result<Option<(&str, Result<PerRepoConfig, String>)>, String>,
        personal_path: &str,
        personal_content: Result<Option<(&str, Result<PerRepoConfig, String>)>, String>,
    ) -> (r: Result<Self, String>)
        ensures
            match r {
                Ok(l) => layer_of(project_path@, content_view(project_content)) == Ok::<
                    Option<(ConfigView, Seq<Seq<char>>)>,
                    Seq<char>,
                >(layer_view(l.project)) && layer_of(personal_path@, content_view(personal_content))
                    == Ok::<Option<(ConfigView, Seq<Seq<char>>)>, Seq<char>>(layer_view(l.personal)),
                Err(e) => match layer_of(project_path@, content_view(project_content)) {
                    Err(pe) => e@ == pe,
                    Ok(_) => layer_of(personal_path@, content_view(personal_content)) == Err::<
                        Option<(ConfigView, Seq<Seq<char>>)>,
                        Seq<char>,
                    >(e@),
                },
            },
    {
        let project = read_layer(project_path, project_content);
        let personal = read_layer(personal_path, personal_content);
        RepoConfigLayers::load(project, personal)
    }

    /// Whether the layer `l` names `key`.
    fn names(l: &Option<ConfigLayer>, key: &str) -> (r: bool)
        ensures
            r == (layer_view(*l) matches Some(x) && x.1.contains(key@)),
    {
        match l {
            Some(x) => {
                let k = text::chars_of(key);
                contains_name(&x.keys, &k)
            },
            None => false,
        }
    }

    /// The merged configuration, or `None` when the repository has neither file.
    /// `default_schema` is the schema reference the defaults carry.
    pub fn effective(&self, default_schema: &str) -> (r: Option<PerRepoConfig>)
        ensures
            match r {
                Some(c) => effective_of(
                    layer_view(self.project),
                    layer_view(self.personal),
                    default_schema@,
                ) == Some(c@),
                None => effective_of(
                    layer_view(self.project),
                    layer_view(self.personal),
                    default_schema@,
                ) is None,
            },
    {
        if self.project.is_none() && self.personal.is_none() {
            return None;
        }
        let base = match &self.personal {
            Some(q) => q.config.copy(),
            None => PerRepoConfig::with_defaults(default_schema),
        };
        let p = match &self.project {
            Some(p) => p,
            None => return Some(base),
        };
        let said_name = Self::names(&self.project, "project_name");
        let said_ignore = Self::names(&self.project, "ignore");
        let said_hooks = Self::names(&self.project, "disable_hooks");
        let said_daemon = Self::names(&self.project, "disable_daemon");
        let said_idle = Self::names(&self.project, "override_idle_days");
        let said_size = Self::names(&self.project, "min_size_mb");
        let said_depth = Self::names(&self.project, "scan_depth");
        let declared = merge_declarations(
            match &p.config.prunable {
                Some(x) => Some(x),
                None => None,
            },
            match &base.prunable {
                Some(x) => Some(x),
                None => None,
            },
        );
        Some(
            PerRepoConfig {
                schema: base.schema,
                project_name: if said_name {
                    copy_opt_string(&p.config.project_name)
                } else {
                    base.project_name
                },
                ignore: if said_ignore {
                    p.config.ignore
                } else {
                    base.ignore
                },
                disable_hooks: if said_hooks {
                    p.config.disable_hooks
                } else {
                    base.disable_hooks
                },
                disable_daemon: if said_daemon {
                    p.config.disable_daemon
                } else {
                    base.disable_daemon
                },
                override_idle_days: if said_idle {
                    p.config.override_idle_days
                } else {
                    base.override_idle_days
                },
                min_size_mb: if said_size {
                    p.config.min_size_mb
                } else {
                    base.min_size_mb
                },
                scan_depth: if said_depth {
                    p.config.scan_depth
                } else {
                    base.scan_depth
                },
                prunable: declared,
            },
        )
    }

    /// Which file spelled this key out, in precedence order.
    pub fn source_of(&self, key: &str) -> (r: ConfigSource)
        ensures
            r == source_of_key(layer_view(self.project), layer_view(self.personal), key@),
    {
        if Self::names(&self.project, key) {
            ConfigSource::Project
        } else if Self::names(&self.personal, key) {
            ConfigSource::Personal
        } else {
            ConfigSource::Default
        }
    }

    /// The personal file as it stands, before the project one overrules any of it.
    pub fn personal_config(&self) -> (r: Option<PerRepoConfig>)
        ensures
            match r {
                Some(c) => layer_view(self.personal) matches Some(q) && q.0 == c@,
                None => self.personal is None,
            },
    {
        match &self.personal {
            Some(q) => Some(q.config.copy()),
            None => None,
        }
    }

    /// The committed file as it stands, before the personal one fills any gaps in.
    pub fn project_config(&self) -> (r: Option<PerRepoConfig>)
        ensures
            match r {
                Some(c) => layer_view(self.project) matches Some(p) && p.0 == c@,
                None => self.project is None,
            },
    {
        match &self.project {
            Some(p) => Some(p.config.copy()),
            None => None,
        }
    }
}

/// How an optional value reads in the provenance table.
pub open spec fn shown_opt_text(v: Option<Seq<char>>) -> Seq<char> {
    match v {
        Some(x) => x,
        None => "not set"@,
    }
}

/// How an optional number reads in the provenance table.
pub open spec fn shown_opt_num(v: Option<u64>) -> Seq<char> {
    match v {
        Some(x) => text::decimal(x as nat),
        None => "not set"@,
    }
}

/// How a flag reads in the provenance table.
pub open spec fn shown_bool(b: bool) -> Seq<char> {
    if b {
        "true"@
    } else {
        "false"@
    }
}

/// The provenance table: each setting, its effective value, and the file it came from.
pub open spec fn rows_of(
    project: Option<(ConfigView, Seq<Seq<char>>)>,
    personal: Option<(ConfigView, Seq<Seq<char>>)>,
    default_schema: Seq<char>,
) -> Seq<(Seq<char>, Seq<char>, ConfigSource)> {
    let cfg = match effective_of(project, personal, default_schema) {
        Some(c) => c,
        None => default_config(default_schema),
    };
    seq![
        ("project_name"@, shown_opt_text(cfg.project_name), source_of_key(project, personal, "project_name"@)),
        ("ignore"@, shown_bool(cfg.ignore), source_of_key(project, personal, "ignore"@)),
        ("disable_hooks"@, shown_bool(cfg.disable_hooks), source_of_key(project, personal, "disable_hooks"@)),
        ("disable_daemon"@, shown_bool(cfg.disable_daemon), source_of_key(project, personal, "disable_daemon"@)),
        ("override_idle_days"@, shown_opt_num(cfg.override_idle_days), source_of_key(project, personal, "override_idle_days"@)),
        ("min_size_mb"@, shown_opt_num(cfg.min_size_mb), source_of_key(project, personal, "min_size_mb"@)),
        ("scan_depth"@, shown_opt_num(
            match cfg.scan_depth {
                Some(d) => Some(d as u64),
                None => None,
            },
        ), source_of_key(project, personal, "scan_depth"@)),
    ]
}

/// The abstract value of a provenance table.
pub open spec fn rows_view(v: Seq<(&'static str, String, ConfigSource)>) -> Seq<(Seq<char>, Seq<char>, ConfigSource)> {
    v.map_values(|r: (&'static str, String, ConfigSource)| (r.0@, r.1@, r.2))
}

fn show_opt_text(v: &Option<String>) -> (r: String)
    ensures
        r@ == shown_opt_text(text::opt_view(*v)),
{
    match v {
        Some(x) => x.clone(),
        None => text::owned("not set"),
    }
}

fn show_opt_num(v: Option<u64>) -> (r: String)
    ensures
        r@ == shown_opt_num(v),
{
    match v {
        Some(x) => {
            let d = text::decimal_chars(x);
            text::string_of(&d)
        },
        None => text::owned("not set"),
    }
}

fn show_bool(b: bool) -> (r: String)
    ensures
        r@ == shown_bool(b),
{
    if b {
        text::owned("true")
    } else {
        text::owned("false")
    }
}

impl RepoConfigLayers {
    /// Which file each setting's effective value came from, beside the value.
    pub fn rows(&self, default_schema: &str) -> (r: Vec<(&'static str, String, ConfigSource)>)
        ensures
            rows_view(r@) == rows_of(layer_view(self.project), layer_view(self.personal), default_schema@),
    {
        let cfg = match self.effective(default_schema) {
            Some(c) => c,
            None => PerRepoConfig::with_defaults(default_schema),
        };
        let depth: Option<u64> = match cfg.scan_depth {
            Some(d) => Some(d as u64),
            None => None,
        };
        let mut out: Vec<(&'static str, String, ConfigSource)> = Vec::new();
        out.push(("project_name", show_opt_text(&cfg.project_name), self.source_of("project_name")));
        out.push(("ignore", show_bool(cfg.ignore), self.source_of("ignore")));
        out.push(("disable_hooks", show_bool(cfg.disable_hooks), self.source_of("disable_hooks")));
        out.push(("disable_daemon", show_bool(cfg.disable_daemon), self.source_of("disable_daemon")));
        out.push(("override_idle_days", show_opt_num(cfg.override_idle_days), self.source_of("override_idle_days")));
        out.push(("min_size_mb", show_opt_num(cfg.min_size_mb), self.source_of("min_size_mb")));
        out.push(("scan_depth", show_opt_num(depth), self.source_of("scan_depth")));
        assert(rows_view(out@) =~= rows_of(layer_view(self.project), layer_view(self.personal), default_schema@));
        out
    }
}

impl PerRepoConfig {
    /// Keys the config files spell out that nothing reads, each with the file it is
    /// in: a typo such as `idle_days` for `override_idle_days` silently does nothing,
    /// and this names it. Unknown keys are still tolerated everywhere else, so a file
    /// written by a newer build never stops an older one. `files` pairs each file's
    /// name with its keys when it parsed as a JSON object.
    pub fn unknown_keys(files: &Vec<(&'static str, Option<ConfigKeys>)>) -> (r: Vec<(&'static str, String)>)
        ensures
            pairs_view(r@) == all_strays(files_view(files@)),
    {
        let top: [&'static str; 9] = [
            "$schema", "project_name", "ignore", "disable_hooks", "disable_daemon",
            "override_idle_days", "min_size_mb", "scan_depth", "prunable",
        ];
        let pr: [&'static str; 2] = ["directories", "exclude"];
        let dirk: [&'static str; 3] = ["path", "rebuild", "why"];
        assert(top@.map_values(|s: &'static str| s@) =~= known_top());
        assert(pr@.map_values(|s: &'static str| s@) =~= known_prunable());
        assert(dirk@.map_values(|s: &'static str| s@) =~= known_directory());
        let ghost fs = files_view(files@);
        let mut out: Vec<(&'static str, String)> = Vec::new();
        let mut i: usize = 0;
        while i < files.len()
            invariant
                i <= files@.len(),
                fs == files_view(files@),
                top@.map_values(|s: &'static str| s@) == known_top(),
                pr@.map_values(|s: &'static str| s@) == known_prunable(),
                dirk@.map_values(|s: &'static str| s@) == known_directory(),
                pairs_view(out@) == all_strays(fs.take(i as int)),
            decreases files@.len() - i,
        {
            assert(fs.take(i + 1).drop_last() == fs.take(i as int));
            assert(fs.take(i + 1).last() == fs[i as int]);
            let name = files[i].0;
            let ghost before = pairs_view(out@);
            match &files[i].1 {
                None => {},
                Some(k) => {
                    push_strays(&mut out, name, &k.top, &top, "");
                    proof {
                        reveal_strlit("");
                        assert(strays(text::views(k.top@), known_top(), ""@) == strays(text::views(k.top@), known_top(), seq![]));
                    }
                    let ghost after_top = pairs_view(out@);
                    match &k.prunable {
                        None => {
                            assert(pairs_view(out@) =~= before + file_strays(keys_view(*k)).map_values(|key: Seq<char>| (name@, key)));
                        },
                        Some((p, entries)) => {
                            push_strays(&mut out, name, p, &pr, "prunable.");
                            let ghost ev = entries@.map_values(|x: Vec<String>| text::views(x@));
                            let ghost mid = pairs_view(out@);
                            let mut j: usize = 0;
                            while j < entries.len()
                                invariant
                                    j <= entries@.len(),
                                    ev == entries@.map_values(|x: Vec<String>| text::views(x@)),
                                    dirk@.map_values(|s: &'static str| s@) == known_directory(),
                                    pairs_view(out@) == mid + entry_strays(ev.take(j as int)).map_values(|key: Seq<char>| (name@, key)),
                                decreases entries@.len() - j,
                            {
                                assert(ev.take(j + 1).drop_last() == ev.take(j as int));
                                assert(ev.take(j + 1).last() == text::views(entries@[j as int]@));
                                push_strays(&mut out, name, &entries[j], &dirk, "prunable.directories[].");
                                assert(entry_strays(ev.take(j + 1)).map_values(|key: Seq<char>| (name@, key)) =~= entry_strays(ev.take(j as int)).map_values(|key: Seq<char>| (name@, key)) + strays(text::views(entries@[j as int]@), known_directory(), "prunable.directories[]."@).map_values(|key: Seq<char>| (name@, key)));
                                j = j + 1;
                            }
                            assert(ev.take(j as int) == ev);
                            assert(pairs_view(out@) =~= before + file_strays(keys_view(*k)).map_values(|key: Seq<char>| (name@, key)));
                        },
                    }
                },
            }
            assert(pairs_view(out@) =~= all_strays(fs.take(i + 1)));
            i = i + 1;
        }
        assert(fs.take(i as int) == fs);
        out
    }
    /// The configuration in force for a repository, from its layers as read: `Err`
    /// when either file exists and does not parse, `None` when there is neither.
    pub fn load_with_diagnostics(layers: &Result<RepoConfigLayers, String>, default_schema: &str) -> (r:
        Result<Option<PerRepoConfig>, String>)
        ensures
            match (layers, r) {
                (Ok(l), Ok(c)) => match c {
                    Some(c) => effective_of(
                        layer_view(l.project),
                        layer_view(l.personal),
                        default_schema@,
                    ) == Some(c@),
                    None => effective_of(
                        layer_view(l.project),
                        layer_view(l.personal),
                        default_schema@,
                    ) is None,
                },
                (Err(e), Err(m)) => m@ == e@,
                _ => false,
            },
    {
        match layers {
            Ok(l) => Ok(l.effective(default_schema)),
            Err(e) => Err(e.clone()),
        }
    }

    /// The personal file alone, for a caller about to write it back: writing the
    /// merged answer would copy the project's values into the personal file.
    pub fn load_personal_for_write(layers: &Result<RepoConfigLayers, String>) -> (r: Result<
        Option<PerRepoConfig>,
        String,
    >)
        ensures
            match (layers, r) {
                (Ok(l), Ok(c)) => match c {
                    Some(c) => layer_view(l.personal) matches Some(q) && q.0 == c@,
                    None => l.personal is None,
                },
                (Err(e), Err(m)) => m@ == e@,
                _ => false,
            },
    {
        match layers {
            Ok(l) => Ok(l.personal_config()),
            Err(e) => Err(e.clone()),
        }
    }
}

/// A `file://` URI for an absolute path: `file://`, one `/`, then the path without its
/// leading slashes, so a Unix path does not produce four.
pub open spec fn file_uri_of(clean_path: Seq<char>) -> Seq<char> {
    "file:///"@ + text::trim_start_matches(clean_path, '/')
}

/// A `file://` URI for an absolute path.
pub fn file_uri(clean_path: &str) -> (r: String)
    ensures
        r@ == file_uri_of(clean_path@),
{
    let p = text::chars_of(clean_path);
    let rest = text::trim_start_matches_chars(&p, '/');
    let mut out: Vec<char> = Vec::new();
    text::push_str(&mut out, "file:///");
    text::push_all(&mut out, &rest);
    text::string_of(&out)
}

/// `s` without its leading `/` and `\` characters.
pub open spec fn trim_leading_seps(s: Seq<char>) -> Seq<char>
    decreases s.len(),
{
    if s.len() > 0 && (s[0] == '/' || s[0] == '\\') {
        trim_leading_seps(s.drop_first())
    } else {
        s
    }
}

/// A path separator on the given platform.
pub open spec fn is_separator(c: char, windows: bool) -> bool {
    c == '/' || (windows && c == '\\')
}

/// `home.join(rel)` for a relative `rel`: a separator between the two unless `home`
/// is empty or already ends with one.
pub open spec fn joined(home: Seq<char>, rel: Seq<char>, windows: bool) -> Seq<char> {
    if home.len() == 0 || is_separator(home.last(), windows) {
        home + rel
    } else {
        home + seq![if windows { '\\' } else { '/' }] + rel
    }
}

// ---------------------------------------------------------------------------------
// Keys a config file spells out that nothing reads
// ---------------------------------------------------------------------------------

/// The keys of a config file that parsed as a JSON object: its own keys, and when its
/// `prunable` is an object, that object's keys and, when its `directories` is an
/// array, the keys of each entry that is an object.
pub struct ConfigKeys {
    /// The top-level keys.
    pub top: Vec<String>,
    /// `prunable`'s keys and the keys of each of its `directories` entries.
    pub prunable: Option<(Vec<String>, Vec<Vec<String>>)>,
}

/// The top-level keys a repository config has.
pub open spec fn known_top() -> Seq<Seq<char>> {
    seq![
        "$schema"@, "project_name"@, "ignore"@, "disable_hooks"@, "disable_daemon"@,
        "override_idle_days"@, "min_size_mb"@, "scan_depth"@, "prunable"@,
    ]
}

/// The keys `prunable` has.
pub open spec fn known_prunable() -> Seq<Seq<char>> {
    seq!["directories"@, "exclude"@]
}

/// The keys a declared directory has.
pub open spec fn known_directory() -> Seq<Seq<char>> {
    seq!["path"@, "rebuild"@, "why"@]
}

/// The keys not in `known`, each with `prefix` in front, in order.
pub open spec fn strays(keys: Seq<Seq<char>>, known: Seq<Seq<char>>, prefix: Seq<char>) -> Seq<Seq<char>>
    decreases keys.len(),
{
    if keys.len() == 0 {
        seq![]
    } else {
        let rest = strays(keys.drop_last(), known, prefix);
        if known.contains(keys.last()) {
            rest
        } else {
            rest.push(prefix + keys.last())
        }
    }
}

/// The stray keys of every declared directory, in order.
pub open spec fn entry_strays(entries: Seq<Seq<Seq<char>>>) -> Seq<Seq<char>>
    decreases entries.len(),
{
    if entries.len() == 0 {
        seq![]
    } else {
        entry_strays(entries.drop_last()) + strays(entries.last(), known_directory(), "prunable.directories[]."@)
    }
}

/// The abstract value of a file's keys.
pub open spec fn keys_view(k: ConfigKeys) -> (Seq<Seq<char>>, Option<(Seq<Seq<char>>, Seq<Seq<Seq<char>>>)>) {
    (text::views(k.top@), match k.prunable {
        Some((p, e)) => Some((text::views(p@), e@.map_values(|x: Vec<String>| text::views(x@)))),
        None => None,
    })
}

/// The keys one file spells out that nothing reads: top-level, then `prunable.*`, then
/// `prunable.directories[].*`.
pub open spec fn file_strays(k: (Seq<Seq<char>>, Option<(Seq<Seq<char>>, Seq<Seq<Seq<char>>>)>)) -> Seq<Seq<char>> {
    strays(k.0, known_top(), seq![]) + match k.1 {
        Some((p, e)) => strays(p, known_prunable(), "prunable."@) + entry_strays(e),
        None => seq![],
    }
}

/// Every stray key of every file, each with its file's name.
pub open spec fn all_strays(files: Seq<(Seq<char>, Option<(Seq<Seq<char>>, Option<(Seq<Seq<char>>, Seq<Seq<Seq<char>>>)>)>)>) -> Seq<(Seq<char>, Seq<char>)>
    decreases files.len(),
{
    if files.len() == 0 {
        seq![]
    } else {
        let (name, keys) = files.last();
        all_strays(files.drop_last()) + match keys {
            Some(k) => file_strays(k).map_values(|key: Seq<char>| (name, key)),
            None => seq![],
        }
    }
}

/// The abstract value of the files handed to [`PerRepoConfig::unknown_keys`].
pub open spec fn files_view(files: Seq<(&'static str, Option<ConfigKeys>)>) -> Seq<(Seq<char>, Option<(Seq<Seq<char>>, Option<(Seq<Seq<char>>, Seq<Seq<Seq<char>>>)>)>)> {
    files.map_values(|f: (&'static str, Option<ConfigKeys>)| (f.0@, match f.1 {
        Some(k) => Some(keys_view(k)),
        None => None,
    }))
}

fn is_known(key: &str, known: &[&'static str]) -> (r: bool)
    ensures
        r == known@.map_values(|s: &'static str| s@).contains(key@),
{
    let ghost kv = known@.map_values(|s: &'static str| s@);
    let mut i: usize = 0;
    while i < known.len()
        invariant
            i <= known@.len(),
            kv == known@.map_values(|s: &'static str| s@),
            forall|j: int| 0 <= j < i ==> kv[j] != key@,
        decreases known@.len() - i,
    {
        if text::str_eq(known[i], key) {
            assert(kv[i as int] == key@);
            return true;
        }
        i = i + 1;
    }
    false
}

fn push_strays(out: &mut Vec<(&'static str, String)>, name: &'static str, keys: &Vec<String>, known: &[&'static str], prefix: &str)
    ensures
        pairs_view(final(out)@) == pairs_view(old(out)@) + strays(
            text::views(keys@),
            known@.map_values(|s: &'static str| s@),
            prefix@,
        ).map_values(|key: Seq<char>| (name@, key)),
{
    let ghost start = pairs_view(out@);
    let ghost kn = known@.map_values(|s: &'static str| s@);
    let ghost ks = text::views(keys@);
    let mut i: usize = 0;
    while i < keys.len()
        invariant
            i <= keys@.len(),
            ks == text::views(keys@),
            kn == known@.map_values(|s: &'static str| s@),
            pairs_view(out@) == start + strays(ks.take(i as int), kn, prefix@).map_values(|key: Seq<char>| (name@, key)),
        decreases keys@.len() - i,
    {
        assert(ks.take(i + 1).drop_last() == ks.take(i as int));
        assert(ks.take(i + 1).last() == keys@[i as int]@);
        if !is_known(keys[i].as_str(), known) {
            let mut v: Vec<char> = Vec::new();
            text::push_str(&mut v, prefix);
            text::push_str(&mut v, keys[i].as_str());
            let ghost before = pairs_view(out@);
            out.push((name, text::string_of(&v)));
            assert(pairs_view(out@) =~= before.push((name@, prefix@ + keys@[i as int]@)));
            assert(strays(ks.take(i + 1), kn, prefix@).map_values(|key: Seq<char>| (name@, key)) =~= strays(
                ks.take(i as int),
                kn,
                prefix@,
            ).map_values(|key: Seq<char>| (name@, key)).push((name@, prefix@ + keys@[i as int]@)));
        }
        i = i + 1;
    }
    assert(ks.take(i as int) == ks);
}

/// The abstract value of a list of (file, key) pairs.
pub open spec fn pairs_view(v: Seq<(&'static str, String)>) -> Seq<(Seq<char>, Seq<char>)> {
    v.map_values(|p: (&'static str, String)| (p.0@, p.1@))
}

/// The shape of the keys a config file's text holds, as [`keys_view`] gives them.
pub open spec fn keys_opt_view(k: Option<ConfigKeys>) -> Option<(Seq<Seq<char>>, Option<(Seq<Seq<char>>, Seq<Seq<Seq<char>>>)>)> {
    match k {
        Some(k) => Some(keys_view(k)),
        None => None,
    }
}

/// A name for the keys `serde_json` reads out of a config file's text: `None` when the
/// text is not a JSON object; otherwise the object's keys, and when its `prunable` is
/// an object, that object's keys and, when its `directories` is an array, the keys of
/// each entry (none for an entry that is not an object). The keys come in the order of
/// `serde_json`'s map, a function of the text alone.
pub uninterp spec fn config_keys_of(text: Seq<char>) -> Option<(Seq<Seq<char>>, Option<(Seq<Seq<char>>, Seq<Seq<Seq<char>>>)>)>;

/// `serde_json::from_str` into a JSON value, and the keys of the objects a config file
/// is made of, as [`config_keys_of`] names them.
#[verifier::external_body]
pub(crate) fn parse_config_keys(text: &str) -> (r: Option<ConfigKeys>)
    ensures
        keys_opt_view(r) == config_keys_of(text@),
{
    let keys = |m: &serde_json::Map<String, serde_json::Value>| m.keys().cloned().collect::<Vec<String>>();
    match serde_json::from_str::<serde_json::Value>(text) {
        Ok(serde_json::Value::Object(map)) => Some(ConfigKeys {
            top: keys(&map),
            prunable: match map.get("prunable") {
                Some(serde_json::Value::Object(p)) => Some((keys(p), match p.get("directories") {
                    Some(serde_json::Value::Array(ds)) => ds.iter().map(|d| d.as_object().map(keys).unwrap_or_default()).collect(),
                    _ => Vec::new(),
                })),
                _ => None,
            },
        }),
        _ => None,
    }
}

/// The keys of each file as its text gives them, with the file's name.
pub open spec fn parsed_files(files: Seq<(&'static str, Option<String>)>) -> Seq<(Seq<char>, Option<(Seq<Seq<char>>, Option<(Seq<Seq<char>>, Seq<Seq<Seq<char>>>)>)>)> {
    files.map_values(|f: (&'static str, Option<String>)| (f.0@, match f.1 {
        Some(t) => config_keys_of(t@),
        None => None,
    }))
}

/// Keys the config files spell out that nothing reads, each with the file it is in,
/// given each file's name and its text when it could be read: a text that is not a
/// JSON object names nothing.
pub fn unknown_keys_in(files: &Vec<(&'static str, Option<String>)>) -> (r: Vec<(&'static str, String)>)
    ensures
        pairs_view(r@) == all_strays(parsed_files(files@)),
{
    let ghost want = parsed_files(files@);
    let mut parsed: Vec<(&'static str, Option<ConfigKeys>)> = Vec::new();
    let mut i: usize = 0;
    while i < files.len()
        invariant
            i <= files.len(),
            want == parsed_files(files@),
            files_view(parsed@) == want.take(i as int),
        decreases files.len() - i,
    {
        let keys = match &files[i].1 {
            Some(t) => parse_config_keys(t.as_str()),
            None => None,
        };
        let ghost before = files_view(parsed@);
        parsed.push((files[i].0, keys));
        assert(files_view(parsed@) =~= before.push(want[i as int]));
        assert(want.take(i + 1) =~= want.take(i as int).push(want[i as int]));
        i = i + 1;
    }
    assert(want.take(i as int) =~= want);
    PerRepoConfig::unknown_keys(&parsed)
}

/// The refusal a config file that does not parse earns, naming the file.
pub open spec fn layer_error_text(path: Seq<char>, parse_error: Seq<char>) -> Seq<char> {
    "Syntax error in `"@ + path + "`: "@ + parse_error
}

/// The refusal a config file that does not parse earns.
pub fn layer_error(path: &str, parse_error: &str) -> (r: String)
    ensures
        r@ == layer_error_text(path@, parse_error@),
{
    let mut v: Vec<char> = Vec::new();
    text::push_str(&mut v, "Syntax error in `");
    text::push_str(&mut v, path);
    text::push_str(&mut v, "`: ");
    text::push_str(&mut v, parse_error);
    text::string_of(&v)
}

/// One config file as read: absent is no layer and never an error; a file that could
/// not be read, or whose text does not parse as a configuration, is refused with the
/// reason; otherwise its values and the top-level keys its text spells out (which the
/// layering reads as the keys it names).
pub open spec fn layer_of(
    path: Seq<char>,
    content: Result<Option<(Seq<char>, Result<ConfigView, Seq<char>>)>, Seq<char>>,
) -> Result<Option<(ConfigView, Seq<Seq<char>>)>, Seq<char>> {
    match content {
        Err(e) => Err("Failed to read file: "@ + e),
        Ok(None) => Ok(None),
        Ok(Some((t, parsed))) => match parsed {
            Err(pe) => Err(layer_error_text(path, pe)),
            Ok(c) => Ok(Some((c, match config_keys_of(t) {
                Some(k) => k.0,
                None => seq![],
            }))),
        },
    }
}

/// The abstract value of what was read of one config file.
pub open spec fn content_view(content: Result<Option<(&str, Result<PerRepoConfig, String>)>, String>) -> Result<Option<(Seq<char>, Result<ConfigView, Seq<char>>)>, Seq<char>> {
    match content {
        Err(e) => Err(e@),
        Ok(None) => Ok(None),
        Ok(Some((t, parsed))) => Ok(Some((t@, match parsed {
            Ok(c) => Ok(c@),
            Err(pe) => Err(pe@),
        }))),
    }
}

/// One config file as a layer. `content` is what reading `path` gave: nothing when
/// there is no file, the read error, or the text with its parse as a configuration.
pub fn read_layer(path: &str, content: Result<Option<(&str, Result<PerRepoConfig, String>)>, String>) -> (r:
    Result<Option<ConfigLayer>, String>)
    ensures
        match r {
            Ok(l) => layer_of(path@, content_view(content)) == Ok::<Option<(ConfigView, Seq<Seq<char>>)>, Seq<char>>(layer_view(l)),
            Err(e) => layer_of(path@, content_view(content)) == Err::<Option<(ConfigView, Seq<Seq<char>>)>, Seq<char>>(e@),
        },
{
    match content {
        Err(e) => {
            let mut v: Vec<char> = Vec::new();
            text::push_str(&mut v, "Failed to read file: ");
            text::push_str(&mut v, e.as_str());
            Err(text::string_of(&v))
        },
        Ok(None) => Ok(None),
        Ok(Some((t, parsed))) => match parsed {
            Err(pe) => Err(layer_error(path, pe.as_str())),
            Ok(config) => {
                let keys = match parse_config_keys(t) {
                    Some(k) => k.top,
                    None => {
                        let none: Vec<String> = Vec::new();
                        assert(text::views(none@) =~= Seq::<Seq<char>>::empty());
                        none
                    },
                };
                Ok(Some(ConfigLayer { config, keys }))
            },
        },
    }
}

// ---------------------------------------------------------------------------------
// The repository's exclude file and schema link
// ---------------------------------------------------------------------------------

/// Where the schema is published.
pub const JSON_SCHEMA_URL: &'static str = "https://devprune.vkrishna04.me/schemas/v1/devprune.schema.json";

/// The `$schema` a new config names: the copy installed beside the binary when there is
/// one (shown as `local_schema`), so editors work offline, else the published one.
pub open spec fn schema_url_of(local_schema: Option<Seq<char>>) -> Seq<char> {
    match local_schema {
        Some(p) => file_uri_of(p),
        None => JSON_SCHEMA_URL@,
    }
}

/// The `$schema` a new config names.
pub fn default_schema_url(local_schema: Option<&str>) -> (r: String)
    ensures
        r@ == schema_url_of(
            match local_schema {
                Some(p) => Some(p@),
                None => None,
            },
        ),
{
    match local_schema {
        Some(p) => file_uri(p),
        None => text::owned(JSON_SCHEMA_URL),
    }
}

/// Whether a line of an exclude file, trimmed, is the entry.
pub open spec fn lists_entry(content: Seq<char>, entry: Seq<char>) -> bool {
    exists|k: int| 0 <= k < text::lines(content).len() && text::trim(#[trigger] text::lines(content)[k]) == entry
}

/// What to add to the repository's `info/exclude` so `entry` never shows in `git
/// status`: nothing when a line already names it, else the entry on a line of its own
/// (after a newline when the file does not end with one). With no file yet (`None`),
/// the entry is the whole file. The exclude file rather than `.gitignore`, because the
/// config records one machine's preferences and `.gitignore` is shared.
pub open spec fn exclude_addition(content: Option<Seq<char>>, entry: Seq<char>) -> Option<Seq<char>> {
    match content {
        Some(c) => if lists_entry(c, entry) {
            None
        } else if c.len() == 0 || c.last() == '\n' {
            Some(entry + "\n"@)
        } else {
            Some("\n"@ + entry + "\n"@)
        },
        None => Some(entry + "\n"@),
    }
}

/// What to add to the repository's `info/exclude` for `entry`.
pub fn exclude_append(content: Option<&str>, entry: &str) -> (r: Option<String>)
    ensures
        text::opt_view(r) == exclude_addition(
            match content {
                Some(c) => Some(c@),
                None => None,
            },
            entry@,
        ),
{
    proof {
        reveal_strlit("\n");
    }
    let c = match content {
        None => {
            let mut v: Vec<char> = Vec::new();
            text::push_str(&mut v, entry);
            v.push('\n');
            assert(v@ =~= entry@ + "\n"@);
            return Some(text::string_of(&v));
        },
        Some(c) => c,
    };
    let chars = text::chars_of(c);
    let ls = text::lines_of(&chars);
    let ghost lv = text::seqs_of(ls@);
    let mut i: usize = 0;
    while i < ls.len()
        invariant
            i <= ls@.len(),
            lv == text::seqs_of(ls@),
            lv == text::lines(c@),
            content == Some(c),
            forall|k: int| 0 <= k < i ==> text::trim(#[trigger] lv[k]) != entry@,
        decreases ls@.len() - i,
    {
        let t = text::trim_chars(&ls[i]);
        assert(lv[i as int] == ls@[i as int]@);
        if text::chars_eq_str(&t, entry) {
            assert(text::trim(text::lines(c@)[i as int]) == entry@);
            assert(lists_entry(c@, entry@));
            return None;
        }
        i = i + 1;
    }
    let mut v: Vec<char> = Vec::new();
    if !(chars.len() == 0 || chars[chars.len() - 1] == '\n') {
        v.push('\n');
    }
    text::push_str(&mut v, entry);
    v.push('\n');
    proof {
        if chars@.len() == 0 || chars@.last() == '\n' {
            assert(v@ =~= entry@ + "\n"@);
        } else {
            assert(v@ =~= "\n"@ + entry@ + "\n"@);
        }
    }
    Some(text::string_of(&v))
}

/// An entry is added to the exclude file once: after what [`exclude_append`] adds has
/// been written, it asks for nothing more. Holds for an entry that is one trimmed line,
/// as the file names are.
pub proof fn law_an_exclude_entry_is_added_once(content: Option<Seq<char>>, entry: Seq<char>)
    requires
        forall|k: int| 0 <= k < entry.len() ==> entry[k] != '\n',
        text::trim(entry) == entry,
    ensures
        exclude_addition(content, entry) matches Some(add) ==> exclude_addition(
            Some(
                match content {
                    Some(c) => c + add,
                    None => add,
                },
            ),
            entry,
        ) is None,
{
    reveal_strlit("\n");
    text::lemma_trimmed_has_no_cr(entry);
    text::lemma_one_line(entry);
    let line = entry + seq!['\n'];
    assert(entry + "\n"@ =~= line);
    assert(text::lines(line) == seq![entry]);
    match exclude_addition(content, entry) {
        Some(add) => {
            let whole = match content {
                Some(c) => c + add,
                None => add,
            };
            match content {
                None => {
                    assert(whole == line);
                    assert(text::trim(text::lines(whole)[0]) == entry);
                },
                Some(c) => {
                    if c.len() == 0 {
                        assert(whole =~= line);
                        assert(text::trim(text::lines(whole)[0]) == entry);
                    } else if c.last() == '\n' {
                        assert(whole =~= c + line);
                        text::lemma_lines_concat(c, line);
                        let n = text::lines(c).len();
                        assert(text::lines(whole)[n as int] == entry);
                        assert(text::trim(text::lines(whole)[n as int]) == entry);
                    } else {
                        let c2 = c + seq!['\n'];
                        assert("\n"@ + entry + "\n"@ =~= seq!['\n'] + line);
                        assert(whole =~= c2 + line);
                        text::lemma_lines_concat(c2, line);
                        let n = text::lines(c2).len();
                        assert(text::lines(whole)[n as int] == entry);
                        assert(text::trim(text::lines(whole)[n as int]) == entry);
                    }
                },
            }
        },
        None => {},
    }
}

/// Where a repository's Git directory is, from its `.git`: the directory itself, or
/// the target of a `gitdir:` pointer file (a worktree or submodule), relative to the
/// repository unless absolute. `None` when `.git` is neither (`pointer` is the pointer
/// file's content when it could be read).
pub open spec fn git_dir_of(repo: Seq<char>, dot_git_is_dir: bool, pointer: Option<Seq<char>>) -> Option<Seq<char>> {
    if dot_git_is_dir {
        Some(joined(repo, ".git"@, false))
    } else {
        match pointer {
            Some(p) => if text::starts_with(p, "gitdir:"@) {
                let target = text::trim(p.skip(7));
                if target.len() > 0 && target[0] == '/' {
                    Some(target)
                } else {
                    Some(joined(repo, target, false))
                }
            } else {
                None
            },
            None => None,
        }
    }
}

/// Where a repository's Git directory is, from its `.git`.
pub fn git_dir(repo: &str, dot_git_is_dir: bool, pointer: Option<&str>) -> (r: Option<String>)
    ensures
        text::opt_view(r) == git_dir_of(
            repo@,
            dot_git_is_dir,
            match pointer {
                Some(p) => Some(p@),
                None => None,
            },
        ),
{
    if dot_git_is_dir {
        return Some(join_path(repo, ".git", false));
    }
    let p = match pointer {
        Some(p) => p,
        None => return None,
    };
    let pv = text::chars_of(p);
    if !text::starts_with_str(&pv, "gitdir:") {
        return None;
    }
    proof {
        reveal_strlit("gitdir:");
    }
    let rest = text::slice_of(&pv, 7, pv.len());
    assert(rest@ == p@.skip(7));
    let target = text::trim_chars(&rest);
    let t = text::string_of(&target);
    if target.len() > 0 && target[0] == '/' {
        Some(t)
    } else {
        Some(join_path(repo, t.as_str(), false))
    }
}

/// The shared Git directory a worktree's private one points at through its
/// `commondir` file (`commondir` is that file's content when it could be read):
/// relative to the private directory unless absolute; without one, the directory
/// itself. This is where `info/exclude` lives.
pub open spec fn common_dir_of(git_dir: Seq<char>, commondir: Option<Seq<char>>) -> Seq<char> {
    match commondir {
        Some(c) => {
            let target = text::trim(c);
            if target.len() > 0 && target[0] == '/' {
                target
            } else {
                joined(git_dir, target, false)
            }
        },
        None => git_dir,
    }
}

/// The shared Git directory.
pub fn common_dir(git_dir: &str, commondir: Option<&str>) -> (r: String)
    ensures
        r@ == common_dir_of(
            git_dir@,
            match commondir {
                Some(c) => Some(c@),
                None => None,
            },
        ),
{
    match commondir {
        Some(c) => {
            let cv = text::chars_of(c);
            let target = text::trim_chars(&cv);
            let t = text::string_of(&target);
            if target.len() > 0 && target[0] == '/' {
                t
            } else {
                join_path(git_dir, t.as_str(), false)
            }
        },
        None => text::owned(git_dir),
    }
}

/// `home.join(rel)` for a relative `rel`, as text.
pub fn join_path(home: &str, rel: &str, windows: bool) -> (r: String)
    ensures
        r@ == joined(home@, rel@, windows),
{
    let hv = text::chars_of(home);
    let mut out: Vec<char> = Vec::new();
    text::push_all(&mut out, &hv);
    if !(hv.len() == 0 || hv[hv.len() - 1] == '/' || (windows && hv[hv.len() - 1] == '\\')) {
        out.push(if windows { '\\' } else { '/' });
    }
    text::push_str(&mut out, rel);
    assert(out@ =~= joined(home@, rel@, windows));
    text::string_of(&out)
}

/// A leading `~` expanded to the home directory: only a bare `~` or one followed by a
/// separator, since `~alice` names another user's home and `~backup` is an ordinary
/// name. Without a home directory the text is left as it is.
pub open spec fn tilde_expanded(raw: Seq<char>, home: Option<Seq<char>>, windows: bool) -> Seq<char> {
    if raw.len() > 0 && raw[0] == '~' {
        let rest = raw.drop_first();
        if rest.len() == 0 || rest[0] == '/' || rest[0] == '\\' {
            match home {
                None => raw,
                Some(h) => if rest.len() == 0 {
                    h
                } else {
                    joined(h, trim_leading_seps(rest), windows)
                },
            }
        } else {
            raw
        }
    } else {
        raw
    }
}

/// Expand a leading `~` to `home`, the user's home directory (`None` when there is
/// none). Shells that hand the literal `~` through (PowerShell, cmd, or any quoted
/// argument) would otherwise register a directory called `~`.
pub fn expand_tilde(raw: &str, home: Option<&str>, windows: bool) -> (r: String)
    ensures
        r@ == tilde_expanded(
            raw@,
            match home {
                Some(h) => Some(h@),
                None => None,
            },
            windows,
        ),
{
    let v = text::chars_of(raw);
    if v.len() == 0 || v[0] != '~' {
        return text::owned(raw);
    }
    let rest = text::slice_of(&v, 1, v.len());
    assert(rest@ == raw@.drop_first());
    if !(rest.len() == 0 || rest[0] == '/' || rest[0] == '\\') {
        return text::owned(raw);
    }
    let h = match home {
        Some(h) => h,
        None => return text::owned(raw),
    };
    if rest.len() == 0 {
        return text::owned(h);
    }
    let mut n: usize = 0;
    assert(rest@.skip(0) == rest@);
    while n < rest.len() && (rest[n] == '/' || rest[n] == '\\')
        invariant
            n <= rest.len(),
            trim_leading_seps(rest@) == trim_leading_seps(rest@.skip(n as int)),
        decreases rest.len() - n,
    {
        assert(rest@.skip(n as int).drop_first() == rest@.skip(n + 1));
        n = n + 1;
    }
    let rel = text::slice_of(&rest, n, rest.len());
    let hv = text::chars_of(h);
    let mut out: Vec<char> = Vec::new();
    text::push_all(&mut out, &hv);
    if !(hv.len() == 0 || hv[hv.len() - 1] == '/' || (windows && hv[hv.len() - 1] == '\\')) {
        out.push(if windows { '\\' } else { '/' });
    }
    text::push_all(&mut out, &rel);
    assert(out@ =~= joined(h@, trim_leading_seps(rest@), windows));
    text::string_of(&out)
}

// ---------------------------------------------------------------------------------
// Laws
// ---------------------------------------------------------------------------------

/// Whether a history is oldest first.
pub open spec fn oldest_first(h: Seq<PruneRunSummary>) -> bool {
    forall|i: int, j: int| 0 <= i <= j < h.len() ==> h[i].at <= h[j].at
}

/// The prune history never holds more than [`PRUNE_HISTORY_LIMIT`] passes, and the
/// newest summary is always the pass just recorded.
pub proof fn law_history_is_capped(r: RegistryView, at: i64, d: Seq<PrunedDirView>)
    requires
        view_wf(r),
    ensures
        progressed(r, at, d).prune_history.len() <= PRUNE_HISTORY_LIMIT,
        d.len() > 0 ==> progressed(r, at, d).prune_history.last() == summary_of(at, d),
{
}

/// A pass is counted once however many times its progress is recorded: recording it
/// again under the same start time replaces its record and summary and leaves the
/// count alone.
pub proof fn law_a_pass_is_counted_once(
    r: RegistryView,
    at: i64,
    d1: Seq<PrunedDirView>,
    d2: Seq<PrunedDirView>,
)
    requires
        view_wf(r),
        d1.len() > 0,
        d2.len() > 0,
    ensures
        progressed(progressed(r, at, d1), at, d2).total_pruned_count == progressed(
            r,
            at,
            d1,
        ).total_pruned_count,
        progressed(progressed(r, at, d1), at, d2).prune_history.len() == progressed(
            r,
            at,
            d1,
        ).prune_history.len(),
        progressed(progressed(r, at, d1), at, d2).last_prune == Some((at, d2)),
{
    let r1 = progressed(r, at, d1);
    assert(continues_pass(r1, at));
}

/// A pass that has not been recorded yet, and deleted something, adds exactly one to
/// the pass count.
pub proof fn law_a_new_pass_counts_one(r: RegistryView, at: i64, d: Seq<PrunedDirView>)
    requires
        d.len() > 0,
        !continues_pass(r, at),
    ensures
        progressed(r, at, d).total_pruned_count == r.total_pruned_count + 1
            || r.total_pruned_count == u64::MAX,
{
}

/// A pass that deleted nothing changes nothing: the record of the last pass that did
/// survives it.
pub proof fn law_an_empty_pass_changes_nothing(r: RegistryView, at: i64)
    ensures
        progressed(r, at, Seq::empty()) == r,
{
}

/// Recording a pass that starts no earlier than the newest one keeps the history
/// oldest first.
pub proof fn law_history_stays_oldest_first(r: RegistryView, at: i64, d: Seq<PrunedDirView>)
    requires
        oldest_first(r.prune_history),
        r.prune_history.len() > 0 ==> r.prune_history.last().at <= at,
    ensures
        oldest_first(progressed(r, at, d).prune_history),
{
    if d.len() > 0 {
        let base = if continues_pass(r, at) {
            r.prune_history.drop_last()
        } else {
            r.prune_history
        };
        let h = base.push(summary_of(at, d));
        assert(oldest_first(h)) by {
            assert forall|i: int, j: int| 0 <= i <= j < h.len() implies h[i].at <= h[j].at by {
                if j == h.len() - 1 && i < j {
                    assert(h[i] == r.prune_history[i]);
                }
            }
        }
        if h.len() > PRUNE_HISTORY_LIMIT {
            let k = h.len() - PRUNE_HISTORY_LIMIT;
            assert forall|i: int, j: int|
                0 <= i <= j < h.skip(k).len() implies h.skip(k)[i].at <= h.skip(k)[j].at by {
                assert(h.skip(k)[i] == h[i + k]);
                assert(h.skip(k)[j] == h[j + k]);
            }
        }
    }
}

/// Crediting freed bytes never touches the cache-clear total or the pass count, and a
/// cache clear never touches the prune total: the two are separate figures.
pub proof fn law_cache_and_prune_totals_are_separate(
    r: RegistryView,
    key: Seq<char>,
    bytes: u64,
    now: i64,
    cleared: u64,
)
    ensures
        credited(r, key, bytes, now).total_cache_freed_bytes == r.total_cache_freed_bytes,
        credited(r, key, bytes, now).total_pruned_count == r.total_pruned_count,
        cache_cleared(r, cleared).total_freed_bytes == r.total_freed_bytes,
        cache_cleared(r, cleared).repositories == r.repositories,
{
}

/// Each repository accumulates its own total: two credits to one registered
/// repository add both amounts to it and to the machine-wide total.
pub proof fn law_credits_accumulate(
    r: RegistryView,
    key: Seq<char>,
    b1: u64,
    b2: u64,
    t1: i64,
    t2: i64,
)
    requires
        view_wf(r),
        has_key(r.repositories, key),
        credit_fits(r, key, b1),
        credit_fits(credited(r, key, b1, t1), key, b2),
    ensures
        ({
            let r2 = credited(credited(r, key, b1, t1), key, b2, t2);
            let i = index_of(r.repositories, key)->0;
            &&& r2.total_freed_bytes == r.total_freed_bytes + b1 + b2
            &&& r2.repositories[i].1.total_freed_bytes == r.repositories[i].1.total_freed_bytes + b1
                + b2
            &&& r2.repositories[i].1.last_pruned_at == Some(t2)
        }),
{
    lemma_index_of(r.repositories, key);
    let i = index_of(r.repositories, key)->0;
    let r1 = credited(r, key, b1, t1);
    assert(keys_of(r1.repositories) =~= keys_of(r.repositories));
    assert(index_of(r1.repositories, key) == index_of(r.repositories, key));
}

/// Registering a repository that is already registered changes nothing and says so.
pub proof fn law_adding_twice_changes_nothing(r: RegistryView, key: Seq<char>, t1: i64, t2: i64)
    ensures
        added(added(r, key, t1).0, key, t2) == (added(r, key, t1).0, false),
{
    let r1 = added(r, key, t1).0;
    if !has_key(r.repositories, key) {
        assert(r1.repositories.last().0 == key);
        assert(keys_of(r1.repositories)[r1.repositories.len() - 1] == key);
    }
}

/// Unlinking a repository just registered gives back the repositories as they were.
pub proof fn law_add_then_remove_restores(
    r: RegistryView,
    key: Seq<char>,
    now: i64,
    target: Seq<char>,
    windows: bool,
)
    requires
        view_wf(r),
        !has_key(r.repositories, key),
    ensures
        removed(added(r, key, now).0, key, target, windows).1,
        removed(added(r, key, now).0, key, target, windows).0.repositories == r.repositories,
{
    let r1 = added(r, key, now).0;
    let n = r.repositories.len() as int;
    assert(keys_of(r1.repositories) =~= keys_of(r.repositories).push(key));
    lemma_key_index(keys_of(r1.repositories), key, 0);
    assert(forall|k: int| 0 <= k < n ==> keys_of(r.repositories)[k] != key);
    assert(keys_of(r1.repositories)[n] == key);
    assert(index_of(r1.repositories, key) == Some(n));
    assert(r1.repositories.remove(n) =~= r.repositories);
}

/// Each path that claims an identity is a registered entry that claims it.
proof fn lemma_claimants_registered(
    s: Seq<(Seq<char>, EntryView)>,
    key: Seq<char>,
    id: Seq<char>,
    gone: Seq<Seq<char>>,
    n: int,
)
    requires
        0 <= n < claimants(s, key, id, gone).len(),
    ensures
        exists|k: int|
            0 <= k < s.len() && #[trigger] s[k].0 == claimants(s, key, id, gone)[n] && claims(
                s[k],
                key,
                id,
                gone,
            ),
    decreases s.len(),
{
    if s.len() > 0 {
        let rest = claimants(s.drop_last(), key, id, gone);
        if claims(s.last(), key, id, gone) && n == rest.len() {
            assert(s[s.len() - 1].0 == claimants(s, key, id, gone)[n]);
        } else {
            lemma_claimants_registered(s.drop_last(), key, id, gone, n);
            let k = choose|k: int|
                0 <= k < s.drop_last().len() && #[trigger] s.drop_last()[k].0 == rest[n] && claims(
                    s.drop_last()[k],
                    key,
                    id,
                    gone,
                );
            assert(s[k] == s.drop_last()[k]);
        }
    }
}

/// Two dead entries claiming one identity are clones, not a move: adopting removes no
/// entry and keeps the undo list; only the entry at `key` learns its identity.
pub proof fn law_a_clone_is_not_a_move(r: RegistryView, key: Seq<char>, id: Seq<char>, gone: Seq<Seq<char>>)
    requires
        claimants(r.repositories, key, id, gone).len() >= 2,
    ensures
        keys_of(adopted(r, key, Some(id), gone).repositories) == keys_of(r.repositories),
        adopted(r, key, Some(id), gone).last_added_repos == r.last_added_repos,
{
    lemma_index_of(r.repositories, key);
    assert(keys_of(adopted(r, key, Some(id), gone).repositories) =~= keys_of(r.repositories));
}

/// Exactly one dead entry claiming the identity is the same repository at its old
/// path: its row is removed, the undo list forgets it, and the entry at `key` takes
/// its added time, prune record, override, enablement and freed total, and learns the
/// identity.
pub proof fn law_a_move_hands_over_the_history(r: RegistryView, key: Seq<char>, id: Seq<char>, gone: Seq<Seq<char>>)
    requires
        view_wf(r),
        has_key(r.repositories, key),
        claimants(r.repositories, key, id, gone).len() == 1,
    ensures
        ({
            let c = claimants(r.repositories, key, id, gone)[0];
            let a = adopted(r, key, Some(id), gone);
            let prev = r.repositories[index_of(r.repositories, c)->0].1;
            &&& has_key(r.repositories, c)
            &&& !has_key(a.repositories, c)
            &&& a.repositories.len() + 1 == r.repositories.len()
            &&& a.last_added_repos == without(r.last_added_repos, c)
            &&& index_of(a.repositories, key) matches Some(i) && {
                let e = a.repositories[i].1;
                &&& e.added_at == prev.added_at
                &&& e.last_pruned_at == prev.last_pruned_at
                &&& e.override_idle_days == prev.override_idle_days
                &&& e.enabled == prev.enabled
                &&& e.total_freed_bytes == prev.total_freed_bytes
                &&& e.identity == Some(id)
            }
        }),
{
    let s = r.repositories;
    let c = claimants(s, key, id, gone)[0];
    lemma_claimants_registered(s, key, id, gone, 0);
    let k = choose|k: int| 0 <= k < s.len() && #[trigger] s[k].0 == c && claims(s[k], key, id, gone);
    assert(keys_of(s)[k] == c);
    assert(has_key(s, c));
    lemma_index_of(s, c);
    let j = index_of(s, c)->0;
    assert(c != key);
    let rest = s.remove(j);
    assert(keys_of(rest) =~= keys_of(s).remove(j));
    assert(keys_of(s)[j] == c);
    assert(keys_of(s).no_duplicates());
    assert(!has_key(rest, c)) by {
        if has_key(rest, c) {
            let m = choose|m: int| 0 <= m < keys_of(rest).len() && keys_of(rest)[m] == c;
            if m < j {
                assert(keys_of(s)[m] == c);
                assert(keys_of(s)[m] == keys_of(s)[j]);
            } else {
                assert(keys_of(s)[m + 1] == c);
                assert(keys_of(s)[m + 1] == keys_of(s)[j]);
            }
        }
    }
    lemma_index_of(s, key);
    let ki = choose|m: int| 0 <= m < keys_of(s).len() && keys_of(s)[m] == key;
    assert(has_key(rest, key)) by {
        if ki < j {
            assert(keys_of(rest)[ki] == key);
        } else {
            assert(keys_of(rest)[ki - 1] == key);
        }
    }
    lemma_index_of(rest, key);
    let r1 = moved_history(r, c, key);
    let i = index_of(rest, key)->0;
    assert(keys_of(r1.repositories) =~= keys_of(rest));
    lemma_index_of(r1.repositories, key);
    let a = adopted(r, key, Some(id), gone);
    assert(keys_of(a.repositories) =~= keys_of(r1.repositories));
    assert(index_of(a.repositories, key) == index_of(rest, key));
}

/// An adapter's running totals stay within the sample cap once they are within it.
pub proof fn law_restore_samples_stay_capped(rate: RestoreRate, bytes: u64, millis: u64)
    requires
        rate.samples <= RESTORE_RATE_SAMPLE_CAP,
    ensures
        folded(rate, bytes, millis).samples <= RESTORE_RATE_SAMPLE_CAP,
        folded(rate, bytes, millis).samples >= 1,
{
}

/// What adding declarations keeps: the original list as a prefix, every added path
/// present, and nothing that came from neither list.
pub proof fn lemma_add_dirs(dirs: Seq<DeclaredDirView>, extra: Seq<DeclaredDirView>)
    ensures
        add_dirs(dirs, extra).len() >= dirs.len(),
        add_dirs(dirs, extra).take(dirs.len() as int) == dirs,
        forall|i: int| 0 <= i < extra.len() ==> dir_paths(add_dirs(dirs, extra)).contains(#[trigger] extra[i].path),
        forall|i: int| 0 <= i < add_dirs(dirs, extra).len() ==> dirs.contains(#[trigger] add_dirs(dirs, extra)[i])
            || extra.contains(add_dirs(dirs, extra)[i]),
    decreases extra.len(),
{
    if extra.len() == 0 {
        assert(dirs.take(dirs.len() as int) == dirs);
    } else {
        let prev = extra.drop_last();
        lemma_add_dirs(dirs, prev);
        let acc = add_dirs(dirs, prev);
        let res = add_dirs(dirs, extra);
        assert forall|i: int| 0 <= i < extra.len() implies dir_paths(res).contains(#[trigger] extra[i].path) by {
            if i < extra.len() - 1 {
                assert(extra[i] == prev[i]);
                let w = choose|k: int| 0 <= k < dir_paths(acc).len() && dir_paths(acc)[k] == prev[i].path;
                assert(dir_paths(res)[w] == prev[i].path);
            } else if !dir_paths(acc).contains(extra.last().path) {
                assert(dir_paths(res)[acc.len() as int] == extra.last().path);
            }
        }
        assert forall|i: int| 0 <= i < res.len() implies dirs.contains(#[trigger] res[i]) || extra.contains(res[i]) by {
            if i < acc.len() {
                assert(res[i] == acc[i]);
                if prev.contains(acc[i]) {
                    let w = choose|k: int| 0 <= k < prev.len() && prev[k] == acc[i];
                    assert(extra[w] == prev[w]);
                }
            } else {
                assert(res[i] == extra[extra.len() - 1]);
            }
        }
        assert(res.take(dirs.len() as int) =~= acc.take(dirs.len() as int));
    }
}

/// Declarations from both files add up rather than one silencing the other: the
/// committed declarations come first and unchanged, every personal declaration's path
/// is declared, nothing is declared that neither file declared, and an exclusion from
/// either file is honoured.
pub proof fn law_declarations_add_up(project: PrunableView, personal: PrunableView)
    ensures
        ({
            let pd = project.directories;
            let qd = personal.directories;
            match merged_declarations(Some(project), Some(personal)) {
                Some(m) => {
                    &&& m.directories.take(pd.len() as int) == pd
                    &&& forall|i: int| 0 <= i < qd.len() ==> dir_paths(m.directories).contains(#[trigger] qd[i].path)
                    &&& forall|i: int| 0 <= i < m.directories.len() ==> pd.contains(#[trigger] m.directories[i])
                        || qd.contains(m.directories[i])
                    &&& forall|i: int| 0 <= i < project.exclude.len() ==> m.exclude.contains(#[trigger] project.exclude[i])
                    &&& forall|i: int| 0 <= i < personal.exclude.len() ==> m.exclude.contains(#[trigger] personal.exclude[i])
                },
                None => pd.len() == 0 && qd.len() == 0 && project.exclude.len() == 0
                    && personal.exclude.len() == 0,
            }
        }),
{
    lemma_add_dirs(project.directories, personal.directories);
    lemma_add_names(project.exclude, personal.exclude);
    let pd = project.directories;
    let qd = personal.directories;
    let m = add_dirs(pd, qd);
    if m.len() == 0 {
        if qd.len() > 0 {
            assert(dir_paths(m).contains(qd[0].path));
        }
    }
    let e = add_names(project.exclude, personal.exclude);
    if e.len() == 0 && personal.exclude.len() > 0 {
        assert(e.contains(personal.exclude[0]));
    }
    assert forall|i: int| 0 <= i < project.exclude.len() implies e.contains(#[trigger] project.exclude[i]) by {
        assert(e.take(project.exclude.len() as int)[i] == project.exclude[i]);
        assert(e[i] == project.exclude[i]);
    }
}

/// What adding names keeps: the original list as a prefix and every added name.
pub proof fn lemma_add_names(names: Seq<Seq<char>>, extra: Seq<Seq<char>>)
    ensures
        add_names(names, extra).len() >= names.len(),
        add_names(names, extra).take(names.len() as int) == names,
        forall|i: int| 0 <= i < extra.len() ==> add_names(names, extra).contains(#[trigger] extra[i]),
    decreases extra.len(),
{
    if extra.len() == 0 {
        assert(names.take(names.len() as int) == names);
    } else {
        let prev = extra.drop_last();
        lemma_add_names(names, prev);
        let acc = add_names(names, prev);
        let res = add_names(names, extra);
        assert forall|i: int| 0 <= i < extra.len() implies res.contains(#[trigger] extra[i]) by {
            if i < extra.len() - 1 {
                assert(extra[i] == prev[i]);
                let w = choose|k: int| 0 <= k < acc.len() && acc[k] == prev[i];
                assert(res[w] == prev[i]);
            } else if !acc.contains(extra.last()) {
                assert(res[acc.len() as int] == extra.last());
            }
        }
        assert(res.take(names.len() as int) =~= acc.take(names.len() as int));
    }
}

/// The project file wins exactly the scalar keys it names: for each, the effective
/// value is the project's when its file names the key and the personal file's (or the
/// default) when it does not.
pub proof fn law_project_wins_the_keys_it_names(
    project: ConfigView,
    keys: Seq<Seq<char>>,
    personal: Option<(ConfigView, Seq<Seq<char>>)>,
    default_schema: Seq<char>,
)
    ensures
        ({
            let base = match personal {
                Some(q) => q.0,
                None => default_config(default_schema),
            };
            let e = effective_of(Some((project, keys)), personal, default_schema)->0;
            &&& e.ignore == if keys.contains("ignore"@) { project.ignore } else { base.ignore }
            &&& e.project_name == if keys.contains("project_name"@) { project.project_name } else { base.project_name }
            &&& e.disable_hooks == if keys.contains("disable_hooks"@) { project.disable_hooks } else { base.disable_hooks }
            &&& e.disable_daemon == if keys.contains("disable_daemon"@) { project.disable_daemon } else { base.disable_daemon }
            &&& e.override_idle_days == if keys.contains("override_idle_days"@) { project.override_idle_days } else { base.override_idle_days }
            &&& e.min_size_mb == if keys.contains("min_size_mb"@) { project.min_size_mb } else { base.min_size_mb }
            &&& e.scan_depth == if keys.contains("scan_depth"@) { project.scan_depth } else { base.scan_depth }
            &&& e.schema == base.schema
        }),
{
}

/// The two configuration files combine as documented: nothing at all when neither
/// exists; the personal file alone (or the defaults) when there is no project file;
/// otherwise the personal file's schema, and the declarations of both merged rather
/// than one replacing the other (the scalar keys follow
/// [`law_project_wins_the_keys_it_names`]).
pub proof fn law_the_layers_combine(
    project: Option<(ConfigView, Seq<Seq<char>>)>,
    personal: Option<(ConfigView, Seq<Seq<char>>)>,
    default_schema: Seq<char>,
)
    ensures
        effective_of(project, personal, default_schema) is None <==> (project is None
            && personal is None),
        project is None && personal is Some ==> effective_of(project, personal, default_schema)
            == Some((personal->0).0),
        project is Some ==> ({
            let base = match personal {
                Some(q) => q.0,
                None => default_config(default_schema),
            };
            let e = effective_of(project, personal, default_schema)->0;
            &&& e.schema == base.schema
            &&& e.prunable == merged_declarations((project->0).0.prunable, base.prunable)
        }),
{
}

/// The provenance table has one row per scalar setting, in a fixed order, and each
/// row names the file its key came from.
pub proof fn law_every_row_names_its_source(
    project: Option<(ConfigView, Seq<Seq<char>>)>,
    personal: Option<(ConfigView, Seq<Seq<char>>)>,
    default_schema: Seq<char>,
)
    ensures
        rows_of(project, personal, default_schema).len() == 7,
        rows_of(project, personal, default_schema).map_values(
            |r: (Seq<char>, Seq<char>, ConfigSource)| r.0,
        ) == seq![
            "project_name"@,
            "ignore"@,
            "disable_hooks"@,
            "disable_daemon"@,
            "override_idle_days"@,
            "min_size_mb"@,
            "scan_depth"@,
        ],
        forall|i: int|
            0 <= i < 7 ==> (#[trigger] rows_of(project, personal, default_schema)[i]).2
                == source_of_key(project, personal, rows_of(project, personal, default_schema)[i].0),
{
    let rows = rows_of(project, personal, default_schema);
    assert(rows.map_values(|r: (Seq<char>, Seq<char>, ConfigSource)| r.0) =~= seq![
        "project_name"@,
        "ignore"@,
        "disable_hooks"@,
        "disable_daemon"@,
        "override_idle_days"@,
        "min_size_mb"@,
        "scan_depth"@,
    ]);
}

} // verus!
