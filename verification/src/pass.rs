//! The decisions one prune pass makes about a repository, in the order it makes them:
//! whether the repository is looked at at all, which limits apply, which bloat
//! directories are offered, which are refused, and what each outcome reports.
//!
//! The caller reads the file system and Git, runs the package manager and deletes; it
//! hands each answer to the function that decides what the answer means.
use vstd::prelude::*;

use crate::config;
use crate::order;
use crate::engine::{self, PruneOptions, PruneResult, PruneStatus};
use crate::text;

verus! {

broadcast use vstd::seq_lib::group_seq_properties;

/// The file whose presence in a repository's root opts it out of every pass.
pub const DEVPRUNE_IGNORE_FILE: &'static str = "ignore.devprune.json";

// ---------------------------------------------------------------------------------
// Abstract values of outcomes
// ---------------------------------------------------------------------------------

/// The abstract value of a [`PruneStatus`].
pub enum StatusView {
    Pruned,
    SkippedActive,
    SkippedDryRun,
    LockfileError(Seq<char>),
    ActivityCheckError(Seq<char>),
    PathMissing,
    NoBloat,
    Disabled,
    SkippedIgnored,
    DeleteError(Seq<char>),
    SkippedSymlink(Seq<char>),
    ConfigError(Seq<char>),
}

impl View for PruneStatus {
    type V = StatusView;

    open spec fn view(&self) -> StatusView {
        match self {
            PruneStatus::Pruned => StatusView::Pruned,
            PruneStatus::SkippedActive => StatusView::SkippedActive,
            PruneStatus::SkippedDryRun => StatusView::SkippedDryRun,
            PruneStatus::LockfileError(e) => StatusView::LockfileError(e@),
            PruneStatus::ActivityCheckError(e) => StatusView::ActivityCheckError(e@),
            PruneStatus::PathMissing => StatusView::PathMissing,
            PruneStatus::NoBloat => StatusView::NoBloat,
            PruneStatus::Disabled => StatusView::Disabled,
            PruneStatus::SkippedIgnored => StatusView::SkippedIgnored,
            PruneStatus::DeleteError(e) => StatusView::DeleteError(e@),
            PruneStatus::SkippedSymlink(e) => StatusView::SkippedSymlink(e@),
            PruneStatus::ConfigError(e) => StatusView::ConfigError(e@),
        }
    }
}

/// The abstract value of a [`PruneResult`].
pub struct ResultView {
    pub repo_path: Seq<char>,
    pub adapter_name: Seq<char>,
    pub bloat_dir: Seq<char>,
    pub size_freed: u64,
    pub shared_bytes: u64,
    pub runtime: Option<Seq<char>>,
    pub status: StatusView,
}

impl View for PruneResult {
    type V = ResultView;

    open spec fn view(&self) -> ResultView {
        ResultView {
            repo_path: self.repo_path@,
            adapter_name: self.adapter_name@,
            bloat_dir: self.bloat_dir@,
            size_freed: self.size_freed,
            shared_bytes: self.shared_bytes,
            runtime: text::opt_view(self.runtime),
            status: self.status@,
        }
    }
}

/// The abstract value of a list of results.
pub open spec fn results_view(rs: Seq<PruneResult>) -> Seq<ResultView> {
    rs.map_values(|r: PruneResult| r@)
}

/// A line about the whole repository rather than one directory: no adapter, no
/// directory, nothing freed.
pub open spec fn whole(repo: Seq<char>, status: StatusView) -> ResultView {
    ResultView {
        repo_path: repo,
        adapter_name: "-"@,
        bloat_dir: "-"@,
        size_freed: 0,
        shared_bytes: 0,
        runtime: None,
        status,
    }
}

/// A line about the whole repository.
pub fn whole_repo(repo: &str, status: PruneStatus) -> (r: PruneResult)
    ensures
        r@ == whole(repo@, status@),
{
    PruneResult {
        repo_path: text::owned(repo),
        adapter_name: text::owned("-"),
        bloat_dir: text::owned("-"),
        size_freed: 0,
        shared_bytes: 0,
        runtime: None,
        status,
    }
}

/// A line about one directory that was not deleted.
pub open spec fn untouched(repo: Seq<char>, adapter: Seq<char>, label: Seq<char>, status: StatusView) -> ResultView {
    ResultView {
        repo_path: repo,
        adapter_name: adapter,
        bloat_dir: label,
        size_freed: 0,
        shared_bytes: 0,
        runtime: None,
        status,
    }
}

fn untouched_dir(repo: &str, adapter: &str, label: &str, status: PruneStatus) -> (r: PruneResult)
    ensures
        r@ == untouched(repo@, adapter@, label@, status@),
{
    PruneResult {
        repo_path: text::owned(repo),
        adapter_name: text::owned(adapter),
        bloat_dir: text::owned(label),
        size_freed: 0,
        shared_bytes: 0,
        runtime: None,
        status,
    }
}

fn concat3(a: &str, b: &str, c: &str) -> (r: String)
    ensures
        r@ == a@ + b@ + c@,
{
    let mut v: Vec<char> = Vec::new();
    text::push_str(&mut v, a);
    text::push_str(&mut v, b);
    text::push_str(&mut v, c);
    text::string_of(&v)
}

fn concat5(a: &str, b: &str, c: &str, d: &str, e: &str) -> (r: String)
    ensures
        r@ == a@ + b@ + c@ + d@ + e@,
{
    let mut v: Vec<char> = Vec::new();
    text::push_str(&mut v, a);
    text::push_str(&mut v, b);
    text::push_str(&mut v, c);
    text::push_str(&mut v, d);
    text::push_str(&mut v, e);
    text::string_of(&v)
}

// ---------------------------------------------------------------------------------
// Whether the repository is looked at
// ---------------------------------------------------------------------------------

/// What a registered path whose `.git` has gone reports.
pub open spec fn not_git_text(repo: Seq<char>) -> Seq<char> {
    "`"@ + repo + "` is no longer a git repository — nothing was touched. `devp unlink` removes it from the registry."@
}

/// The line a repository gets before any bloat is looked for, if it gets one: a path
/// that is gone, a path that is no longer a repository, an opt-out file, a config that
/// does not parse (a refusal to guess, since the defaults would drop an opt-out), and
/// an `ignore` in the config. `None` means the pass goes on.
pub open spec fn gate(
    repo: Seq<char>,
    exists: bool,
    is_git: bool,
    ignore_file: bool,
    config: Result<Option<config::ConfigView>, Seq<char>>,
) -> Option<ResultView> {
    if !exists {
        Some(whole(repo, StatusView::PathMissing))
    } else if !is_git {
        Some(whole(repo, StatusView::ActivityCheckError(not_git_text(repo))))
    } else if ignore_file {
        Some(whole(repo, StatusView::SkippedIgnored))
    } else {
        match config {
            Err(e) => Some(whole(repo, StatusView::ConfigError(e))),
            Ok(Some(c)) => if c.ignore {
                Some(whole(repo, StatusView::SkippedIgnored))
            } else {
                None
            },
            Ok(None) => None,
        }
    }
}

/// The abstract value of a loaded config, or the reason it could not be.
pub open spec fn loaded_view(c: Result<Option<config::PerRepoConfig>, String>) -> Result<Option<config::ConfigView>, Seq<char>> {
    match c {
        Ok(Some(c)) => Ok(Some(c@)),
        Ok(None) => Ok(None),
        Err(e) => Err(e@),
    }
}

/// The line a repository gets before any bloat is looked for, if it gets one. The
/// facts are the caller's: whether the path exists, whether it is a Git repository,
/// whether the opt-out file is in its root, and its config as loaded.
pub fn repo_gate(
    repo: &str,
    exists: bool,
    is_git: bool,
    ignore_file: bool,
    config: &Result<Option<config::PerRepoConfig>, String>,
) -> (r: Option<PruneResult>)
    ensures
        match r {
            Some(x) => gate(repo@, exists, is_git, ignore_file, loaded_view(*config)) == Some(x@),
            None => gate(repo@, exists, is_git, ignore_file, loaded_view(*config)) is None,
        },
{
    if !exists {
        return Some(whole_repo(repo, PruneStatus::PathMissing));
    }
    if !is_git {
        let msg = concat3("`", repo, "` is no longer a git repository — nothing was touched. `devp unlink` removes it from the registry.");
        return Some(whole_repo(repo, PruneStatus::ActivityCheckError(msg)));
    }
    if ignore_file {
        return Some(whole_repo(repo, PruneStatus::SkippedIgnored));
    }
    match config {
        Err(e) => Some(whole_repo(repo, PruneStatus::ConfigError(e.clone()))),
        Ok(Some(c)) => if c.ignore {
            Some(whole_repo(repo, PruneStatus::SkippedIgnored))
        } else {
            None
        },
        Ok(None) => None,
    }
}

/// The idle threshold a repository is held to: its config's override, else the
/// pass's.
pub open spec fn effective_idle(opts_idle: u64, config: Option<config::ConfigView>) -> u64 {
    match config {
        Some(c) => match c.override_idle_days {
            Some(d) => d,
            None => opts_idle,
        },
        None => opts_idle,
    }
}

/// `mb` mebibytes in bytes, saturating.
pub open spec fn mib_bytes(mb: u64) -> u64 {
    if mb * engine::BYTES_PER_MIB > u64::MAX {
        u64::MAX
    } else {
        (mb * engine::BYTES_PER_MIB) as u64
    }
}

/// The size floor a repository is held to: none when the caller named the
/// directories (it already chose), else the config's own floor (`0` opts out of a
/// global one), else the pass's.
pub open spec fn size_floor(opts_floor: u64, only_named: bool, config: Option<config::ConfigView>) -> u64 {
    if only_named {
        0
    } else {
        match config {
            Some(c) => match c.min_size_mb {
                Some(mb) => mib_bytes(mb),
                None => opts_floor,
            },
            None => opts_floor,
        }
    }
}

/// The abstract value of an optional config.
pub open spec fn opt_config(c: Option<config::PerRepoConfig>) -> Option<config::ConfigView> {
    match c {
        Some(c) => Some(c@),
        None => None,
    }
}

/// The idle threshold and the size floor, in bytes, this repository is held to.
pub fn pass_limits(opts: &PruneOptions, config: &Option<config::PerRepoConfig>) -> (r: (u64, u64))
    ensures
        r.0 == effective_idle(opts.idle_days, opt_config(*config)),
        r.1 == size_floor(opts.min_size_bytes, opts.only_dirs is Some, opt_config(*config)),
{
    let idle = match config {
        Some(c) => match c.override_idle_days {
            Some(d) => d,
            None => opts.idle_days,
        },
        None => opts.idle_days,
    };
    let floor = if opts.only_dirs.is_some() {
        0
    } else {
        match config {
            Some(c) => match c.min_size_mb {
                Some(mb) => match mb.checked_mul(engine::BYTES_PER_MIB) {
                    Some(b) => b,
                    None => u64::MAX,
                },
                None => opts.min_size_bytes,
            },
            None => opts.min_size_bytes,
        }
    };
    (idle, floor)
}

/// The limits a pass holds a repository to. The idle window is the repository's own
/// override when its config sets one, else the pass's. The size floor is none when the
/// caller named the directories; else the config's own floor in MiB, saturating at
/// `u64::MAX` (so `0` turns a global floor off); else the pass's floor: a config file
/// that is silent on either setting changes nothing.
pub proof fn law_a_silent_config_keeps_the_pass_limits(
    opts_idle: u64,
    opts_floor: u64,
    only_named: bool,
    config: Option<config::ConfigView>,
)
    ensures
        (config is None || config->0.override_idle_days is None) ==> effective_idle(opts_idle, config)
            == opts_idle,
        config is Some && config->0.override_idle_days is Some ==> effective_idle(opts_idle, config)
            == config->0.override_idle_days->0,
        only_named ==> size_floor(opts_floor, only_named, config) == 0,
        !only_named && (config is None || config->0.min_size_mb is None) ==> size_floor(
            opts_floor,
            only_named,
            config,
        ) == opts_floor,
        !only_named && config is Some && config->0.min_size_mb is Some && config->0.min_size_mb->0 * 1048576
            <= u64::MAX ==> size_floor(opts_floor, only_named, config) == config->0.min_size_mb->0 * 1048576,
        !only_named && config is Some && config->0.min_size_mb is Some && config->0.min_size_mb->0 * 1048576
            > u64::MAX ==> size_floor(opts_floor, only_named, config) == u64::MAX,
{
}

/// The line an idle check earns: nothing with `force`, which bypasses it; nothing for
/// an idle repository; `SkippedActive` for an active one; and the reason when the
/// check itself failed.
pub open spec fn activity(repo: Seq<char>, force: bool, idle: Result<bool, Seq<char>>) -> Option<ResultView> {
    if force {
        None
    } else {
        match idle {
            Ok(true) => None,
            Ok(false) => Some(whole(repo, StatusView::SkippedActive)),
            Err(e) => Some(whole(repo, StatusView::ActivityCheckError(e))),
        }
    }
}

/// The line an idle check earns, given its answer.
pub fn activity_gate(repo: &str, force: bool, idle: Result<bool, String>) -> (r: Option<PruneResult>)
    ensures
        match r {
            Some(x) => activity(
                repo@,
                force,
                match idle {
                    Ok(b) => Ok(b),
                    Err(e) => Err(e@),
                },
            ) == Some(x@),
            None => activity(
                repo@,
                force,
                match idle {
                    Ok(b) => Ok(b),
                    Err(e) => Err(e@),
                },
            ) is None,
        },
{
    if force {
        return None;
    }
    match idle {
        Ok(true) => None,
        Ok(false) => Some(whole_repo(repo, PruneStatus::SkippedActive)),
        Err(e) => Some(whole_repo(repo, PruneStatus::ActivityCheckError(e))),
    }
}

/// Build-tool directories come back by recompiling, so they wait for the longer of
/// the build window and the repository's own.
pub fn build_idle_threshold(build_idle_days: u64, effective_idle_days: u64) -> (r: u64)
    ensures
        r == if build_idle_days >= effective_idle_days { build_idle_days } else { effective_idle_days },
        r >= build_idle_days,
        r >= effective_idle_days,
{
    if build_idle_days >= effective_idle_days {
        build_idle_days
    } else {
        effective_idle_days
    }
}

// ---------------------------------------------------------------------------------
// Which bloat directories are offered
// ---------------------------------------------------------------------------------

/// One bloat directory an adapter found: its repository-relative label, where it
/// is, and how big.
pub struct Candidate {
    /// Repository-relative, `/`-separated label.
    pub label: String,
    /// Where it is on disk, as the claim set compares it.
    pub path: String,
    /// Its size in bytes.
    pub size_bytes: u64,
}

/// Whether a label passes the caller's selection.
pub open spec fn selected(only: Option<Seq<Seq<char>>>, label: Seq<char>) -> bool {
    match only {
        Some(names) => names.contains(label),
        None => true,
    }
}

/// The directories offered from `cands`, in order, with the paths claimed after
/// them: those the selection names and the size floor admits, each path only once
/// over the whole repository. The floor is applied before the claim, so a directory
/// too small for one adapter does not block another from considering it.
pub open spec fn offered(
    cands: Seq<Candidate>,
    only: Option<Seq<Seq<char>>>,
    floor: u64,
    claimed: Seq<Seq<char>>,
) -> (Seq<int>, Seq<Seq<char>>)
    decreases cands.len(),
{
    if cands.len() == 0 {
        (seq![], claimed)
    } else {
        let (idx, cl) = offered(cands.drop_last(), only, floor, claimed);
        let c = cands.last();
        if selected(only, c.label@) && c.size_bytes >= floor && !cl.contains(c.path@) {
            (idx.push(cands.len() - 1), cl.push(c.path@))
        } else {
            (idx, cl)
        }
    }
}

fn holds(list: &Vec<String>, s: &str) -> (r: bool)
    ensures
        r == text::views(list@).contains(s@),
{
    let mut i: usize = 0;
    while i < list.len()
        invariant
            i <= list@.len(),
            forall|k: int| 0 <= k < i ==> list@[k]@ != s@,
        decreases list@.len() - i,
    {
        if text::str_eq(list[i].as_str(), s) {
            assert(text::views(list@)[i as int] == s@);
            return true;
        }
        i = i + 1;
    }
    assert(!text::views(list@).contains(s@)) by {
        if text::views(list@).contains(s@) {
            let k = choose|k: int| 0 <= k < list@.len() && text::views(list@)[k] == s@;
            assert(list@[k]@ == s@);
        }
    }
    false
}

/// The indices of the directories offered from one adapter's candidates, claiming
/// their paths in `claimed` (the paths earlier adapters in this repository took).
pub fn select_bloat(
    cands: &Vec<Candidate>,
    only: &Option<Vec<String>>,
    floor: u64,
    claimed: &mut Vec<String>,
) -> (r: Vec<usize>)
    ensures
        ({
            let (idx, cl) = offered(
                cands@,
                match only {
                    Some(v) => Some(text::views(v@)),
                    None => None,
                },
                floor,
                text::views(old(claimed)@),
            );
            &&& r@.map_values(|i: usize| i as int) == idx
            &&& text::views(final(claimed)@) == cl
        }),
{
    let ghost onlyv = match only {
        Some(v) => Some(text::views(v@)),
        None => None::<Seq<Seq<char>>>,
    };
    let ghost start = text::views(claimed@);
    let mut out: Vec<usize> = Vec::new();
    let mut i: usize = 0;
    while i < cands.len()
        invariant
            i <= cands@.len(),
            onlyv == match only {
                Some(v) => Some(text::views(v@)),
                None => None::<Seq<Seq<char>>>,
            },
            ({
                let (idx, cl) = offered(cands@.take(i as int), onlyv, floor, start);
                &&& out@.map_values(|j: usize| j as int) == idx
                &&& text::views(claimed@) == cl
            }),
        decreases cands@.len() - i,
    {
        assert(cands@.take(i + 1).drop_last() == cands@.take(i as int));
        assert(cands@.take(i + 1).last() == cands@[i as int]);
        let c = &cands[i];
        let chosen = match only {
            Some(names) => holds(names, c.label.as_str()),
            None => true,
        };
        if chosen && c.size_bytes >= floor && !holds(claimed, c.path.as_str()) {
            let ghost before_out = out@;
            let ghost before_cl = text::views(claimed@);
            out.push(i);
            claimed.push(c.path.clone());
            assert(out@.map_values(|j: usize| j as int) =~= before_out.map_values(|j: usize| j as int).push(i as int));
            assert(text::views(claimed@) =~= before_cl.push(c.path@));
        }
        i = i + 1;
    }
    assert(cands@.take(i as int) == cands@);
    out
}

/// Within one repository a directory is offered at most once however many adapters
/// claim it, and only when the selection names it and it is at least the size floor:
/// two adapters resolving to the same directory would otherwise count its size twice
/// and fail the second delete.
pub proof fn law_a_directory_is_offered_once(
    cands: Seq<Candidate>,
    only: Option<Seq<Seq<char>>>,
    floor: u64,
    claimed: Seq<Seq<char>>,
)
    requires
        claimed.no_duplicates(),
    ensures
        ({
            let (idx, cl) = offered(cands, only, floor, claimed);
            &&& cl.no_duplicates()
            &&& cl.len() == claimed.len() + idx.len()
            &&& forall|k: int| 0 <= k < idx.len() ==> {
                &&& 0 <= #[trigger] idx[k] < cands.len()
                &&& selected(only, cands[idx[k]].label@)
                &&& cands[idx[k]].size_bytes >= floor
                &&& !claimed.contains(cands[idx[k]].path@)
                &&& cl[claimed.len() + k] == cands[idx[k]].path@
            }
        }),
    decreases cands.len(),
{
    if cands.len() > 0 {
        let rest = cands.drop_last();
        law_a_directory_is_offered_once(rest, only, floor, claimed);
        let (idx0, cl0) = offered(rest, only, floor, claimed);
        let (idx, cl) = offered(cands, only, floor, claimed);
        assert forall|k: int| 0 <= k < idx0.len() implies rest[idx0[k]] == cands[idx0[k]] by {}
        let c = cands.last();
        if selected(only, c.label@) && c.size_bytes >= floor && !cl0.contains(c.path@) {
            assert(!claimed.contains(c.path@)) by {
                if claimed.contains(c.path@) {
                    let j = choose|j: int| 0 <= j < claimed.len() && claimed[j] == c.path@;
                    assert(cl0[j] == claimed[j]) by {
                        lemma_offered_keeps_claimed(rest, only, floor, claimed);
                    }
                }
            }
            assert forall|k: int| 0 <= k < idx.len() implies {
                &&& 0 <= #[trigger] idx[k] < cands.len()
                &&& selected(only, cands[idx[k]].label@)
                &&& cands[idx[k]].size_bytes >= floor
                &&& !claimed.contains(cands[idx[k]].path@)
                &&& cl[claimed.len() + k] == cands[idx[k]].path@
            } by {
                if k < idx0.len() {
                    assert(idx[k] == idx0[k]);
                    assert(cl[claimed.len() + k] == cl0[claimed.len() + k]);
                }
            }
        }
    }
}

proof fn lemma_offered_keeps_claimed(
    cands: Seq<Candidate>,
    only: Option<Seq<Seq<char>>>,
    floor: u64,
    claimed: Seq<Seq<char>>,
)
    ensures
        offered(cands, only, floor, claimed).1.len() >= claimed.len(),
        forall|j: int| 0 <= j < claimed.len() ==> offered(cands, only, floor, claimed).1[j] == claimed[j],
    decreases cands.len(),
{
    if cands.len() > 0 {
        lemma_offered_keeps_claimed(cands.drop_last(), only, floor, claimed);
    }
}

// ---------------------------------------------------------------------------------
// Which offered directories are refused
// ---------------------------------------------------------------------------------

/// Why a symlinked directory is left alone.
pub open spec fn symlink_text(path: Seq<char>) -> Seq<char> {
    "`"@ + path + "` is a symlink to storage dev-prune does not own — left alone. Remove the link yourself if you really want it gone."@
}

/// Why a mount point is left alone.
pub open spec fn mount_text(path: Seq<char>) -> Seq<char> {
    "`"@ + path
        + "` is a mount point — it is on a different filesystem than the repository around it, so its contents are shared with whatever mounted it. Left alone."@
}

/// Why a directory holding a Git repository is not deleted.
pub open spec fn nested_text(path: Seq<char>, nested: Seq<char>) -> Seq<char> {
    "`"@ + path + "` contains a git repository at `"@ + nested
        + "` — refusing to delete it. Move or remove that checkout yourself if it holds nothing you need."@
}

/// The refusal an offered directory earns, checked before any dry run and before the
/// lockfile is enforced: a symlink or junction (storage the repository does not own),
/// a mount point (the same, with no link to remove), or a Git repository inside it
/// (history no lockfile rebuilds). `path` is the directory as shown to the user.
pub open spec fn refusal_of(
    repo: Seq<char>,
    adapter: Seq<char>,
    label: Seq<char>,
    path: Seq<char>,
    is_symlink: bool,
    is_mount: bool,
    nested: Option<Seq<char>>,
) -> Option<ResultView> {
    if is_symlink {
        Some(untouched(repo, adapter, label, StatusView::SkippedSymlink(symlink_text(path))))
    } else if is_mount {
        Some(untouched(repo, adapter, label, StatusView::SkippedSymlink(mount_text(path))))
    } else {
        match nested {
            Some(n) => Some(untouched(repo, adapter, label, StatusView::DeleteError(nested_text(path, n)))),
            None => None,
        }
    }
}

/// The refusal an offered directory earns, if any.
pub fn refusal(
    repo: &str,
    adapter: &str,
    label: &str,
    path: &str,
    is_symlink: bool,
    is_mount: bool,
    nested: Option<&str>,
) -> (r: Option<PruneResult>)
    ensures
        match r {
            Some(x) => refusal_of(
                repo@,
                adapter@,
                label@,
                path@,
                is_symlink,
                is_mount,
                match nested {
                    Some(n) => Some(n@),
                    None => None,
                },
            ) == Some(x@),
            None => refusal_of(
                repo@,
                adapter@,
                label@,
                path@,
                is_symlink,
                is_mount,
                match nested {
                    Some(n) => Some(n@),
                    None => None,
                },
            ) is None,
        },
{
    if is_symlink {
        let msg = concat3("`", path, "` is a symlink to storage dev-prune does not own — left alone. Remove the link yourself if you really want it gone.");
        return Some(untouched_dir(repo, adapter, label, PruneStatus::SkippedSymlink(msg)));
    }
    if is_mount {
        let msg = concat3(
            "`",
            path,
            "` is a mount point — it is on a different filesystem than the repository around it, so its contents are shared with whatever mounted it. Left alone.",
        );
        return Some(untouched_dir(repo, adapter, label, PruneStatus::SkippedSymlink(msg)));
    }
    match nested {
        Some(n) => {
            let msg = concat5(
                "`",
                path,
                "` contains a git repository at `",
                n,
                "` — refusing to delete it. Move or remove that checkout yourself if it holds nothing you need.",
            );
            Some(untouched_dir(repo, adapter, label, PruneStatus::DeleteError(msg)))
        },
        None => None,
    }
}

// ---------------------------------------------------------------------------------
// What each outcome reports
// ---------------------------------------------------------------------------------

/// One `LockfileError` line per directory when the lockfile could not be enforced:
/// nothing is deleted in service of a lockfile that does not hold.
pub fn lockfile_failures(repo: &str, adapter: &str, labels: &Vec<String>, error: &str) -> (r: Vec<PruneResult>)
    ensures
        results_view(r@) == text::views(labels@).map_values(
            |l: Seq<char>| untouched(repo@, adapter@, l, StatusView::LockfileError(error@)),
        ),
{
    let ghost ls = text::views(labels@);
    let mut out: Vec<PruneResult> = Vec::new();
    let mut i: usize = 0;
    while i < labels.len()
        invariant
            i <= labels@.len(),
            ls == text::views(labels@),
            results_view(out@) == ls.take(i as int).map_values(
                |l: Seq<char>| untouched(repo@, adapter@, l, StatusView::LockfileError(error@)),
            ),
        decreases labels@.len() - i,
    {
        let ghost before = results_view(out@);
        out.push(untouched_dir(repo, adapter, labels[i].as_str(), PruneStatus::LockfileError(text::owned(error))));
        assert(results_view(out@) =~= before.push(
            untouched(repo@, adapter@, ls[i as int], StatusView::LockfileError(error@)),
        ));
        assert(ls.take(i + 1).map_values(
            |l: Seq<char>| untouched(repo@, adapter@, l, StatusView::LockfileError(error@)),
        ) =~= ls.take(i as int).map_values(
            |l: Seq<char>| untouched(repo@, adapter@, l, StatusView::LockfileError(error@)),
        ).push(untouched(repo@, adapter@, ls[i as int], StatusView::LockfileError(error@))));
        i = i + 1;
    }
    assert(ls.take(i as int) == ls);
    out
}

/// What a dry run reports for a directory: its size, as reclaimable, untouched.
pub open spec fn dry_run_view(repo: Seq<char>, adapter: Seq<char>, label: Seq<char>, size: u64, shared: u64) -> ResultView {
    ResultView {
        repo_path: repo,
        adapter_name: adapter,
        bloat_dir: label,
        size_freed: size,
        shared_bytes: shared,
        runtime: None,
        status: StatusView::SkippedDryRun,
    }
}

/// What a dry run reports for a directory.
pub fn dry_run_result(repo: &str, adapter: &str, label: &str, size: u64, shared: u64) -> (r: PruneResult)
    ensures
        r@ == dry_run_view(repo@, adapter@, label@, size, shared),
{
    PruneResult {
        repo_path: text::owned(repo),
        adapter_name: text::owned(adapter),
        bloat_dir: text::owned(label),
        size_freed: size,
        shared_bytes: shared,
        runtime: None,
        status: PruneStatus::SkippedDryRun,
    }
}

/// How a delete went: done; failed, though the directory is gone anyway (a first
/// attempt that did the work); or failed with the error and the bytes still there.
pub enum DeleteOutcome {
    Done,
    GoneAnyway,
    Failed { error: String, remaining: u64 },
}

/// The message a failed delete carries: when some of it went, that the directory is
/// half-deleted and unusable and how to rebuild it (`remaining_text` and `size_text`
/// are the two sizes as shown); otherwise the error alone.
pub open spec fn failed_text(
    error: Seq<char>,
    path: Seq<char>,
    freed: u64,
    remaining_text: Seq<char>,
    size_text: Seq<char>,
) -> Seq<char> {
    if freed > 0 {
        error + " — `"@ + path + "` was partially deleted ("@ + remaining_text + " of "@ + size_text
            + " remains) and is no longer usable. Close whatever holds it open, then run `devp restore` to rebuild it."@
    } else {
        error
    }
}

/// `a - b`, or zero.
pub open spec fn saturating_sub(a: u64, b: u64) -> u64 {
    if a >= b {
        (a - b) as u64
    } else {
        0
    }
}

/// What a delete reports. A delete that completed, even on a retry, frees the whole
/// size; one that failed frees what is gone and says what state it left. `runtime` is
/// the interpreter the directory was built against, asked before the delete.
pub open spec fn deleted_view(
    repo: Seq<char>,
    adapter: Seq<char>,
    label: Seq<char>,
    path: Seq<char>,
    size: u64,
    shared: u64,
    runtime: Option<Seq<char>>,
    outcome: DeleteOutcome,
    remaining_text: Seq<char>,
    size_text: Seq<char>,
) -> ResultView {
    match outcome {
        DeleteOutcome::Failed { error, remaining } => {
            let freed = saturating_sub(size, remaining);
            ResultView {
                repo_path: repo,
                adapter_name: adapter,
                bloat_dir: label,
                size_freed: freed,
                shared_bytes: 0,
                runtime,
                status: StatusView::DeleteError(failed_text(error@, path, freed, remaining_text, size_text)),
            }
        },
        _ => ResultView {
            repo_path: repo,
            adapter_name: adapter,
            bloat_dir: label,
            size_freed: size,
            shared_bytes: shared,
            runtime,
            status: StatusView::Pruned,
        },
    }
}

/// What a delete reports.
pub fn delete_result(
    repo: &str,
    adapter: &str,
    label: &str,
    path: &str,
    size: u64,
    shared: u64,
    runtime: Option<String>,
    outcome: DeleteOutcome,
    remaining_text: &str,
    size_text: &str,
) -> (r: PruneResult)
    ensures
        r@ == deleted_view(repo@, adapter@, label@, path@, size, shared, text::opt_view(runtime), outcome, remaining_text@, size_text@),
{
    match outcome {
        DeleteOutcome::Failed { error, remaining } => {
            let freed = size.saturating_sub(remaining);
            let message = if freed > 0 {
                let mut v: Vec<char> = Vec::new();
                text::push_str(&mut v, error.as_str());
                text::push_str(&mut v, " — `");
                text::push_str(&mut v, path);
                text::push_str(&mut v, "` was partially deleted (");
                text::push_str(&mut v, remaining_text);
                text::push_str(&mut v, " of ");
                text::push_str(&mut v, size_text);
                text::push_str(
                    &mut v,
                    " remains) and is no longer usable. Close whatever holds it open, then run `devp restore` to rebuild it.",
                );
                text::string_of(&v)
            } else {
                error
            };
            PruneResult {
                repo_path: text::owned(repo),
                adapter_name: text::owned(adapter),
                bloat_dir: text::owned(label),
                size_freed: freed,
                shared_bytes: 0,
                runtime,
                status: PruneStatus::DeleteError(message),
            }
        },
        _ => PruneResult {
            repo_path: text::owned(repo),
            adapter_name: text::owned(adapter),
            bloat_dir: text::owned(label),
            size_freed: size,
            shared_bytes: shared,
            runtime,
            status: PruneStatus::Pruned,
        },
    }
}

/// Close a repository's pass: a repository that produced no line at all (nothing
/// recognised, or nothing on disk to reclaim) gets `NoBloat`, so it never vanishes
/// from the report.
pub fn close_repo(results: &mut Vec<PruneResult>, repo: &str)
    ensures
        results_view(final(results)@) == if old(results)@.len() == 0 {
            seq![whole(repo@, StatusView::NoBloat)]
        } else {
            results_view(old(results)@)
        },
        final(results)@.len() > 0,
{
    if results.len() == 0 {
        results.push(whole_repo(repo, PruneStatus::NoBloat));
        assert(results_view(results@) =~= seq![whole(repo@, StatusView::NoBloat)]);
    }
}

/// What one repository reports: the line of the first gate that stops it (the path and
/// enabled gate, then the idle test), else the lines its adapters gave, or `NoBloat` when they
/// gave none.
pub open spec fn report_of(repo: Seq<char>, gate: Option<ResultView>, activity: Option<ResultView>, lines: Seq<ResultView>) -> Seq<
    ResultView,
> {
    match gate {
        Some(x) => seq![x],
        None => match activity {
            Some(x) => seq![x],
            None => if lines.len() == 0 {
                seq![whole(repo, StatusView::NoBloat)]
            } else {
                lines
            },
        },
    }
}

/// The lines of one repository: the answer of [`repo_gate`], else that of
/// [`activity_gate`] (asked only for a repository the first one passes), else the
/// adapters' lines, closed by [`close_repo`].
pub fn repo_report(repo: &str, gate: Option<PruneResult>, activity: Option<PruneResult>, lines: Vec<PruneResult>) -> (r: Vec<
    PruneResult,
>)
    ensures
        results_view(r@) == report_of(
            repo@,
            match gate {
                Some(x) => Some(x@),
                None => None,
            },
            match activity {
                Some(x) => Some(x@),
                None => None,
            },
            results_view(lines@),
        ),
{
    match gate {
        Some(x) => {
            let mut v: Vec<PruneResult> = Vec::new();
            v.push(x);
            assert(results_view(v@) =~= seq![v@[0]@]);
            v
        },
        None => match activity {
            Some(x) => {
                let mut v: Vec<PruneResult> = Vec::new();
                v.push(x);
                assert(results_view(v@) =~= seq![v@[0]@]);
                v
            },
            None => {
                let mut v = lines;
                close_repo(&mut v, repo);
                v
            },
        },
    }
}

/// A repository never vanishes from the report: it always gets at least one line; a
/// registered path that is gone gets exactly one, `PathMissing`; and when the adapters'
/// lines are all about it, so is every line.
pub proof fn law_a_repository_is_never_missing_from_the_report(
    repo: Seq<char>,
    exists: bool,
    is_git: bool,
    ignore_file: bool,
    config: Result<Option<config::ConfigView>, Seq<char>>,
    force: bool,
    idle: Result<bool, Seq<char>>,
    lines: Seq<ResultView>,
)
    requires
        forall|i: int| 0 <= i < lines.len() ==> (#[trigger] lines[i]).repo_path == repo,
    ensures
        ({
            let r = report_of(repo, gate(repo, exists, is_git, ignore_file, config), activity(repo, force, idle), lines);
            &&& r.len() > 0
            &&& !exists ==> r == seq![whole(repo, StatusView::PathMissing)]
            &&& forall|i: int| 0 <= i < r.len() ==> (#[trigger] r[i]).repo_path == repo
        }),
{
}

// ---------------------------------------------------------------------------------
// Adding up a pass
// ---------------------------------------------------------------------------------

/// The idle threshold a registered repository is held to across a pass: its entry's
/// override, else the global setting.
pub fn repo_idle_days(entry: &config::RepoEntry, settings: &config::Settings) -> (r: u64)
    ensures
        r == match entry.override_idle_days {
            Some(d) => d,
            None => settings.idle_days,
        },
{
    match entry.override_idle_days {
        Some(d) => d,
        None => settings.idle_days,
    }
}

/// The bytes a repository's `Pruned` lines freed.
pub open spec fn pruned_sum(rs: Seq<ResultView>) -> nat
    decreases rs.len(),
{
    if rs.len() == 0 {
        0
    } else {
        pruned_sum(rs.drop_last()) + if rs.last().status is Pruned {
            rs.last().size_freed as nat
        } else {
            0
        }
    }
}

proof fn lemma_pruned_sum_prefix(rs: Seq<ResultView>, i: int)
    requires
        0 <= i <= rs.len(),
    ensures
        pruned_sum(rs.take(i)) <= pruned_sum(rs),
    decreases rs.len() - i,
{
    if i < rs.len() {
        lemma_pruned_sum_prefix(rs, i + 1);
        assert(rs.take(i + 1).drop_last() == rs.take(i));
    } else {
        assert(rs.take(i) == rs);
    }
}

/// The bytes a repository's `Pruned` lines freed, for crediting the repository once.
pub fn pruned_bytes(results: &Vec<PruneResult>) -> (r: u64)
    requires
        pruned_sum(results_view(results@)) <= u64::MAX,
    ensures
        r == pruned_sum(results_view(results@)),
{
    let ghost rs = results_view(results@);
    let mut total: u64 = 0;
    let mut i: usize = 0;
    while i < results.len()
        invariant
            i <= results@.len(),
            rs == results_view(results@),
            pruned_sum(rs) <= u64::MAX,
            total == pruned_sum(rs.take(i as int)),
        decreases results@.len() - i,
    {
        assert(rs.take(i + 1).drop_last() == rs.take(i as int));
        assert(rs.take(i + 1).last() == results@[i as int]@);
        proof {
            lemma_pruned_sum_prefix(rs, i + 1);
        }
        match results[i].status {
            PruneStatus::Pruned => {
                total = total + results[i].size_freed;
            },
            _ => {},
        }
        i = i + 1;
    }
    assert(rs.take(i as int) == rs);
    total
}

/// What a pass adds up to for its summary and its record: the bytes freed, the
/// directories deleted, the failures, and every directory the record must let
/// `devp restore` rebuild.
pub struct PassTally {
    /// Bytes the deleted directories held.
    pub total_freed: u64,
    /// Directories deleted.
    pub pruned_count: u64,
    /// Directories that could not be pruned: a lockfile that did not hold, a delete
    /// that failed, a config that did not parse.
    pub error_count: u64,
    /// Directories to record: every one deleted, and every one a failed delete got
    /// half-way through, which is corrupt rather than intact.
    pub pruned_dirs: Vec<config::PrunedDir>,
}

/// The record of one line's directory.
pub open spec fn dir_of(r: ResultView) -> config::PrunedDirView {
    config::PrunedDirView {
        repo_path: r.repo_path,
        bloat_dir: r.bloat_dir,
        adapter: r.adapter_name,
        size_freed: r.size_freed,
        runtime: r.runtime,
    }
}

/// Whether a line counts as a failure of the pass.
pub open spec fn is_failure(s: StatusView) -> bool {
    s is LockfileError || s is DeleteError || s is ConfigError
}

/// Whether a line's directory goes into the pass's record.
pub open spec fn is_recorded(r: ResultView) -> bool {
    r.status is Pruned || (r.status is DeleteError && r.size_freed > 0)
}

/// The abstract tally of a pass: bytes, deletions, failures, recorded directories.
pub open spec fn tallied(rs: Seq<ResultView>) -> (nat, nat, nat, Seq<config::PrunedDirView>)
    decreases rs.len(),
{
    if rs.len() == 0 {
        (0, 0, 0, seq![])
    } else {
        let (b, p, e, d) = tallied(rs.drop_last());
        let r = rs.last();
        (
            b + if r.status is Pruned { r.size_freed as nat } else { 0 },
            p + if r.status is Pruned { 1nat } else { 0nat },
            e + if is_failure(r.status) { 1nat } else { 0nat },
            if is_recorded(r) { d.push(dir_of(r)) } else { d },
        )
    }
}

proof fn lemma_tallied_prefix(rs: Seq<ResultView>, i: int)
    requires
        0 <= i <= rs.len(),
    ensures
        tallied(rs.take(i)).0 <= tallied(rs).0,
        tallied(rs.take(i)).1 <= i,
        tallied(rs.take(i)).2 <= i,
    decreases rs.len() - i,
{
    lemma_tallied_counts(rs.take(i));
    if i < rs.len() {
        lemma_tallied_prefix(rs, i + 1);
        assert(rs.take(i + 1).drop_last() == rs.take(i));
    } else {
        assert(rs.take(i) == rs);
    }
}

proof fn lemma_tallied_counts(rs: Seq<ResultView>)
    ensures
        tallied(rs).1 <= rs.len(),
        tallied(rs).2 <= rs.len(),
    decreases rs.len(),
{
    if rs.len() > 0 {
        lemma_tallied_counts(rs.drop_last());
    }
}

/// Add up a pass's lines.
pub fn tally(results: &Vec<PruneResult>) -> (t: PassTally)
    requires
        tallied(results_view(results@)).0 <= u64::MAX,
    ensures
        ({
            let (b, p, e, d) = tallied(results_view(results@));
            &&& t.total_freed == b
            &&& t.pruned_count == p
            &&& t.error_count == e
            &&& config::dirs_view(t.pruned_dirs@) == d
        }),
{
    let ghost rs = results_view(results@);
    let mut t = PassTally { total_freed: 0, pruned_count: 0, error_count: 0, pruned_dirs: Vec::new() };
    let n = results.len();
    let mut i: usize = 0;
    while i < n
        invariant
            i <= results@.len(),
            n == results@.len(),
            rs == results_view(results@),
            tallied(rs).0 <= u64::MAX,
            ({
                let (b, p, e, d) = tallied(rs.take(i as int));
                &&& t.total_freed == b
                &&& t.pruned_count == p
                &&& t.error_count == e
                &&& config::dirs_view(t.pruned_dirs@) == d
            }),
        decreases n - i,
    {
        assert(rs.take(i + 1).drop_last() == rs.take(i as int));
        assert(rs.take(i + 1).last() == results@[i as int]@);
        proof {
            lemma_tallied_prefix(rs, i + 1);
            lemma_tallied_prefix(rs, i as int);
        }
        let r = &results[i];
        let ghost before = config::dirs_view(t.pruned_dirs@);
        match &r.status {
            PruneStatus::Pruned => {
                t.total_freed = t.total_freed + r.size_freed;
                t.pruned_count = t.pruned_count + 1;
                t.pruned_dirs.push(config::PrunedDir {
                    repo_path: r.repo_path.clone(),
                    bloat_dir: r.bloat_dir.clone(),
                    adapter: r.adapter_name.clone(),
                    size_freed: r.size_freed,
                    runtime: r.runtime.clone(),
                });
                assert(config::dirs_view(t.pruned_dirs@) =~= before.push(dir_of(results@[i as int]@)));
            },
            PruneStatus::LockfileError(_) | PruneStatus::ConfigError(_) => {
                t.error_count = t.error_count + 1;
            },
            PruneStatus::DeleteError(_) => {
                t.error_count = t.error_count + 1;
                if r.size_freed > 0 {
                    t.pruned_dirs.push(config::PrunedDir {
                        repo_path: r.repo_path.clone(),
                        bloat_dir: r.bloat_dir.clone(),
                        adapter: r.adapter_name.clone(),
                        size_freed: r.size_freed,
                        runtime: r.runtime.clone(),
                    });
                    assert(config::dirs_view(t.pruned_dirs@) =~= before.push(dir_of(results@[i as int]@)));
                }
            },
            _ => {},
        }
        i = i + 1;
    }
    assert(rs.take(i as int) == rs);
    t
}

/// Why a pass exits non-zero: a prune that failed anywhere fails the command.
pub open spec fn failed_pass_text(errors: nat) -> Seq<char> {
    text::decimal(errors) + " directories could not be pruned."@
}

/// Why a pass exits non-zero, when it does.
pub fn failed_pass(errors: u64) -> (r: Option<String>)
    ensures
        match r {
            Some(m) => errors > 0 && m@ == failed_pass_text(errors as nat),
            None => errors == 0,
        },
{
    if errors == 0 {
        return None;
    }
    let mut v = text::decimal_chars(errors);
    text::push_str(&mut v, " directories could not be pruned.");
    Some(text::string_of(&v))
}

/// The order a pass visits the registered repositories in: by path, as `Path::cmp`
/// orders paths, so two identical runs list them identically and their reports can be
/// compared line by line. The result lists indices into `paths`.
pub fn pass_order(paths: &Vec<String>) -> (r: Vec<usize>)
    ensures
        order::is_permutation(r@, paths@.len()),
        order::is_sorted_by(r@, order::keys_of(Seq::new(paths@.len(), |i: int| 0u8), text::views(paths@))),
{
    let mut bands: Vec<u8> = Vec::new();
    let mut i: usize = 0;
    while i < paths.len()
        invariant
            i <= paths@.len(),
            bands@ == Seq::new(i as nat, |k: int| 0u8),
        decreases paths@.len() - i,
    {
        bands.push(0);
        assert(bands@ =~= Seq::new((i + 1) as nat, |k: int| 0u8));
        i = i + 1;
    }
    order::sorted_rows(&bands, paths)
}

// ---------------------------------------------------------------------------------
// Restoring a pass
// ---------------------------------------------------------------------------------

/// One project a restore found in the repository: its repository-relative path (`.`
/// for the root), where it is, and the adapters that recognise it.
pub struct FoundProject {
    /// Repository-relative, `/`-separated; `.` is the root.
    pub relative: String,
    /// Where it is on disk.
    pub path: String,
    /// The names of the adapters that recognise it.
    pub adapters: Vec<String>,
}

/// The label a restore reports a recorded directory under: the adapter, then the
/// directory.
pub open spec fn restore_label_text(adapter: Seq<char>, bloat: Seq<char>) -> Seq<char> {
    adapter + " ("@ + bloat + ")"@
}

/// The label a restore reports a recorded directory under.
pub fn restore_label(dir: &config::PrunedDir) -> (r: String)
    ensures
        r@ == restore_label_text(dir.adapter@, dir.bloat_dir@),
{
    let mut v: Vec<char> = Vec::new();
    text::push_str(&mut v, dir.adapter.as_str());
    text::push_str(&mut v, " (");
    text::push_str(&mut v, dir.bloat_dir.as_str());
    text::push_str(&mut v, ")");
    text::string_of(&v)
}

/// The deleted directory's own name, the part of its label after the last `/`, so an
/// adapter that supports several names rebuilds the one that was there.
pub open spec fn dir_name_of(label: Seq<char>) -> Seq<char> {
    match engine::last_slash(label) {
        Some(i) => label.skip(i + 1),
        None => label,
    }
}

/// The deleted directory's own name.
pub fn dir_name(label: &str) -> (r: String)
    ensures
        r@ == dir_name_of(label@),
{
    let v = text::chars_of(label);
    match engine::last_slash_index(&v) {
        Some(i) => text::string_of(&text::slice_of(&v, i + 1, v.len())),
        None => text::owned(label),
    }
}

/// Where a restore rebuilds a recorded directory.
pub enum RestoreStep {
    /// In this found project, which an adapter of the recorded name still recognises.
    Found(usize),
    /// In the project directory the record names, which still exists: detection can
    /// fail because the prune succeeded (deleting a virtual environment removes the
    /// very file venv detection looks for), so the record is trusted over a re-detect.
    Recorded(String),
    /// Nowhere: the project is gone or no longer that adapter's, with the message
    /// saying so. Never dropped silently.
    Gone(String),
}

/// The first found project at `wanted` that the named adapter recognises.
pub open spec fn found_at(projects: Seq<FoundProject>, wanted: Seq<char>, adapter: Seq<char>, i: int) -> Option<int>
    decreases projects.len() - i,
{
    if i < 0 || i >= projects.len() {
        None
    } else if projects[i].relative@ == wanted && text::views(projects[i].adapters@).contains(adapter) {
        Some(i)
    } else {
        found_at(projects, wanted, adapter, i + 1)
    }
}

/// Why a recorded directory cannot be restored.
pub open spec fn gone_text(wanted: Seq<char>, repo: Seq<char>, adapter: Seq<char>) -> Seq<char> {
    "`"@ + wanted + "` in "@ + repo + " is no longer a "@ + adapter
        + " project — it may have been moved or removed since the prune. Restore it by hand if it still exists."@
}

/// Where a restore rebuilds a recorded directory: in the found project that still has
/// its adapter, else (when the adapter is one the tool knows and the recorded project
/// directory still exists) there, else nowhere. Only the projects a pass emptied are
/// rebuilt, never the rest of the tree.
pub open spec fn restore_step_of(
    repo: Seq<char>,
    dir: config::PrunedDirView,
    projects: Seq<FoundProject>,
    adapter_known: bool,
    project_dir_exists: bool,
    windows: bool,
) -> (int, Seq<char>) {
    let wanted = engine::owner_of(dir.bloat_dir);
    match found_at(projects, wanted, dir.adapter, 0) {
        Some(i) => (i, seq![]),
        None => if adapter_known && project_dir_exists {
            (-1, engine::project_dir_of(repo, dir.bloat_dir, windows))
        } else {
            (-2, gone_text(wanted, repo, dir.adapter))
        },
    }
}

/// The abstract value of a [`RestoreStep`] in the shape of [`restore_step_of`].
pub open spec fn restore_step_view(s: RestoreStep) -> (int, Seq<char>) {
    match s {
        RestoreStep::Found(i) => (i as int, seq![]),
        RestoreStep::Recorded(d) => (-1, d@),
        RestoreStep::Gone(m) => (-2, m@),
    }
}

proof fn lemma_found_at(projects: Seq<FoundProject>, wanted: Seq<char>, adapter: Seq<char>, i: int)
    requires
        0 <= i,
    ensures
        found_at(projects, wanted, adapter, i) matches Some(j) ==> i <= j < projects.len(),
    decreases projects.len() - i,
{
    if i < projects.len() {
        lemma_found_at(projects, wanted, adapter, i + 1);
    }
}

/// Where a restore rebuilds a recorded directory. `adapter_known` is whether the
/// recorded adapter is one this build has, and `project_dir_exists` whether the
/// project directory the record names (see [`engine::PruneResult::project_dir`]) is
/// still a directory.
pub fn restore_step(
    repo: &str,
    dir: &config::PrunedDir,
    projects: &Vec<FoundProject>,
    adapter_known: bool,
    project_dir_exists: bool,
    windows: bool,
) -> (r: RestoreStep)
    ensures
        restore_step_view(r) == restore_step_of(repo@, dir@, projects@, adapter_known, project_dir_exists, windows),
{
    let wanted = engine::owning_project(dir.bloat_dir.as_str());
    proof {
        lemma_found_at(projects@, wanted@, dir.adapter@, 0);
    }
    let mut i: usize = 0;
    while i < projects.len()
        invariant
            i <= projects@.len(),
            found_at(projects@, wanted@, dir.adapter@, 0) == found_at(projects@, wanted@, dir.adapter@, i as int),
            wanted@ == engine::owner_of(dir.bloat_dir@),
        decreases projects@.len() - i,
    {
        if text::str_eq(projects[i].relative.as_str(), wanted.as_str()) && holds(&projects[i].adapters, dir.adapter.as_str()) {
            return RestoreStep::Found(i);
        }
        i = i + 1;
    }
    if adapter_known && project_dir_exists {
        let probe = PruneResult {
            repo_path: text::owned(repo),
            adapter_name: text::owned(""),
            bloat_dir: dir.bloat_dir.clone(),
            size_freed: 0,
            shared_bytes: 0,
            runtime: None,
            status: PruneStatus::NoBloat,
        };
        RestoreStep::Recorded(probe.project_dir(windows))
    } else {
        let mut v: Vec<char> = Vec::new();
        text::push_str(&mut v, "`");
        text::push_str(&mut v, wanted.as_str());
        text::push_str(&mut v, "` in ");
        text::push_str(&mut v, repo);
        text::push_str(&mut v, " is no longer a ");
        text::push_str(&mut v, dir.adapter.as_str());
        text::push_str(
            &mut v,
            " project — it may have been moved or removed since the prune. Restore it by hand if it still exists.",
        );
        RestoreStep::Gone(text::string_of(&v))
    }
}

/// The label a whole-tree restore reports one adapter of one project under: the
/// adapter alone at the root, the project's path beside it elsewhere.
pub open spec fn depth_label(adapter: Seq<char>, relative: Seq<char>) -> Seq<char> {
    if relative == "."@ {
        adapter
    } else {
        adapter + " ("@ + relative + ")"@
    }
}

/// One project's rows of a whole-tree restore: each of its adapters, in order.
pub open spec fn project_rows(p: FoundProject, i: int) -> Seq<(Seq<char>, int, int)> {
    Seq::new(p.adapters@.len(), |j: int| (depth_label(p.adapters@[j]@, p.relative@), i, j))
}

/// Every adapter of every project found, in order: the label it is reported under, the
/// project's index and the adapter's index within it.
pub open spec fn depth_plan(projects: Seq<FoundProject>) -> Seq<(Seq<char>, int, int)>
    decreases projects.len(),
{
    if projects.len() == 0 {
        seq![]
    } else {
        depth_plan(projects.drop_last()) + project_rows(projects.last(), projects.len() - 1)
    }
}

/// The abstract value of a restore plan.
pub open spec fn plan_view(rows: Seq<(String, usize, usize)>) -> Seq<(Seq<char>, int, int)> {
    rows.map_values(|x: (String, usize, usize)| (x.0@, x.1 as int, x.2 as int))
}

/// Why a whole-tree restore has nothing to do.
pub open spec fn no_manager_text(path: Seq<char>) -> Seq<char> {
    "No recognized package manager found in "@ + path
}

fn depth_label_of(adapter: &str, relative: &str) -> (r: String)
    ensures
        r@ == depth_label(adapter@, relative@),
{
    if text::str_eq(relative, ".") {
        text::owned(adapter)
    } else {
        let mut v: Vec<char> = Vec::new();
        text::push_str(&mut v, adapter);
        text::push_str(&mut v, " (");
        text::push_str(&mut v, relative);
        text::push_str(&mut v, ")");
        text::string_of(&v)
    }
}

/// What a whole-tree restore of `project_path` runs, given the projects found in it to
/// the depth that applies: every adapter of every project, under its label. It must
/// reach as deep as the prune did, which is why the caller walks to that depth. A tree
/// with no project a package manager recognises is refused rather than reported as
/// restored.
pub fn restore_project_to_depth(project_path: &str, projects: &Vec<FoundProject>) -> (r: Result<
    Vec<(String, usize, usize)>,
    String,
>)
    ensures
        match r {
            Ok(rows) => projects@.len() > 0 && plan_view(rows@) == depth_plan(projects@),
            Err(m) => projects@.len() == 0 && m@ == no_manager_text(project_path@),
        },
{
    if projects.len() == 0 {
        let mut v: Vec<char> = Vec::new();
        text::push_str(&mut v, "No recognized package manager found in ");
        text::push_str(&mut v, project_path);
        return Err(text::string_of(&v));
    }
    let mut rows: Vec<(String, usize, usize)> = Vec::new();
    let mut i: usize = 0;
    while i < projects.len()
        invariant
            i <= projects.len(),
            plan_view(rows@) == depth_plan(projects@.take(i as int)),
        decreases projects.len() - i,
    {
        let p = &projects[i];
        let mut j: usize = 0;
        while j < p.adapters.len()
            invariant
                i < projects.len(),
                *p == projects@[i as int],
                j <= p.adapters.len(),
                plan_view(rows@) == depth_plan(projects@.take(i as int)) + project_rows(
                    *p,
                    i as int,
                ).take(j as int),
            decreases p.adapters.len() - j,
        {
            let label = depth_label_of(p.adapters[j].as_str(), p.relative.as_str());
            let ghost before = plan_view(rows@);
            rows.push((label, i, j));
            assert(plan_view(rows@) =~= before.push((depth_label(p.adapters@[j as int]@, p.relative@), i as int, j as int)));
            assert(project_rows(*p, i as int).take(j + 1) =~= project_rows(*p, i as int).take(j as int).push(
                (depth_label(p.adapters@[j as int]@, p.relative@), i as int, j as int),
            ));
            j = j + 1;
        }
        assert(project_rows(*p, i as int).take(j as int) =~= project_rows(*p, i as int));
        assert(projects@.take(i + 1).drop_last() =~= projects@.take(i as int));
        assert(projects@.take(i + 1).last() == projects@[i as int]);
        i = i + 1;
    }
    assert(projects@.take(i as int) =~= projects@);
    Ok(rows)
}

/// Restore exactly the directories a previous pass emptied, and nothing else: for each
/// recorded directory, in order, the label it is reported under and where it is
/// rebuilt. `adapter_known[i]` and `project_dir_exists[i]` answer, for the `i`-th
/// record, the two questions [`restore_step`] asks. A record that no longer matches
/// anything comes back as [`RestoreStep::Gone`] under its own label rather than being
/// dropped.
pub fn restore_deleted(
    repo: &str,
    deleted: &Vec<config::PrunedDir>,
    projects: &Vec<FoundProject>,
    adapter_known: &Vec<bool>,
    project_dir_exists: &Vec<bool>,
    windows: bool,
) -> (r: Vec<(String, RestoreStep)>)
    requires
        adapter_known@.len() == deleted@.len(),
        project_dir_exists@.len() == deleted@.len(),
    ensures
        r@.len() == deleted@.len(),
        forall|i: int|
            0 <= i < r@.len() ==> (#[trigger] r@[i]).0@ == restore_label_text(
                deleted@[i].adapter@,
                deleted@[i].bloat_dir@,
            ) && restore_step_view(r@[i].1) == restore_step_of(
                repo@,
                deleted@[i]@,
                projects@,
                adapter_known@[i],
                project_dir_exists@[i],
                windows,
            ),
{
    let mut out: Vec<(String, RestoreStep)> = Vec::new();
    let mut i: usize = 0;
    while i < deleted.len()
        invariant
            i <= deleted.len(),
            adapter_known@.len() == deleted@.len(),
            project_dir_exists@.len() == deleted@.len(),
            out@.len() == i,
            forall|k: int|
                0 <= k < i ==> (#[trigger] out@[k]).0@ == restore_label_text(
                    deleted@[k].adapter@,
                    deleted@[k].bloat_dir@,
                ) && restore_step_view(out@[k].1) == restore_step_of(
                    repo@,
                    deleted@[k]@,
                    projects@,
                    adapter_known@[k],
                    project_dir_exists@[k],
                    windows,
                ),
        decreases deleted.len() - i,
    {
        let label = restore_label(&deleted[i]);
        let step = restore_step(repo, &deleted[i], projects, adapter_known[i], project_dir_exists[i], windows);
        out.push((label, step));
        i = i + 1;
    }
    out
}

} // verus!
