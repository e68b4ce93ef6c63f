//! What the status dashboard says about each registered repository: why it is or is not
//! a prune candidate, with which limits its bloat is measured, how much it would give
//! back, and in which order the rows are listed.
//!
//! The caller reads the file system and Git and sizes the directories; it hands each
//! answer to the function that decides what the answer means.
use vstd::prelude::*;

use crate::config;
use crate::order;
use crate::engine::{self, SkipReason};
use crate::pass;
use crate::text;

verus! {

broadcast use vstd::seq_lib::group_seq_properties;

/// The abstract value of a [`SkipReason`]: the reason, with the config error's text.
pub open spec fn reason_view(r: SkipReason) -> (u8, Seq<char>) {
    match r {
        SkipReason::Candidate => (0, seq![]),
        SkipReason::Active => (1, seq![]),
        SkipReason::Ignored => (2, seq![]),
        SkipReason::NoBloat => (3, seq![]),
        SkipReason::PathMissing => (4, seq![]),
        SkipReason::ConfigError(e) => (5, e@),
    }
}

/// How a status scan goes on with a repository: classified already (with the idle
/// threshold shown beside it), or to be measured with these limits.
pub enum StatusStep {
    /// The reason is settled; the idle days are the threshold that applies.
    Settled(SkipReason, u64),
    /// Look for bloat: the idle threshold, the size floor in bytes, and the depth the
    /// walk asks for (the walk clamps it).
    Measure { idle_days: u64, min_size_bytes: u64, depth: usize },
}

/// The idle threshold the registry holds a repository to.
pub open spec fn registry_idle(entry: config::EntryView, settings: config::Settings) -> u64 {
    match entry.override_idle_days {
        Some(d) => d,
        None => settings.idle_days,
    }
}

/// How a status scan goes on with a repository, given whether its path exists,
/// whether the opt-out file is in its root, and its config as loaded. A path that is
/// gone is settled before its config is read; a config that does not parse is settled
/// as such (the dashboard refuses to guess just as a pass does); a repository disabled
/// in the registry, carrying the opt-out file or configured `ignore` is settled as
/// ignored. Otherwise its own override, size floor and depth win over the global ones.
pub open spec fn status_step_of(
    entry: config::EntryView,
    settings: config::Settings,
    exists: bool,
    ignore_file: bool,
    config: Result<Option<config::ConfigView>, Seq<char>>,
) -> (u8, Seq<char>, u64, u64, usize) {
    let reg = registry_idle(entry, settings);
    if !exists {
        (4, seq![], reg, 0, 0)
    } else {
        match config {
            Err(e) => (5, e, reg, 0, 0),
            Ok(c) => {
                let idle = match c {
                    Some(cv) => match cv.override_idle_days {
                        Some(d) => d,
                        None => reg,
                    },
                    None => reg,
                };
                let ignored = !entry.enabled || ignore_file || match c {
                    Some(cv) => cv.ignore,
                    None => false,
                };
                if ignored {
                    (2, seq![], idle, 0, 0)
                } else {
                    let mb = match c {
                        Some(cv) => match cv.min_size_mb {
                            Some(m) => m,
                            None => settings.min_size_mb,
                        },
                        None => settings.min_size_mb,
                    };
                    let depth = match c {
                        Some(cv) => match cv.scan_depth {
                            Some(d) => d,
                            None => settings.scan_depth,
                        },
                        None => settings.scan_depth,
                    };
                    (6, seq![], idle, pass::mib_bytes(mb), depth)
                }
            },
        }
    }
}

/// The abstract value of a [`StatusStep`], in the shape of [`status_step_of`]: the
/// settled reason (or 6 for "measure"), its text, the idle days, the floor, the depth.
pub open spec fn step_view(s: StatusStep) -> (u8, Seq<char>, u64, u64, usize) {
    match s {
        StatusStep::Settled(r, idle) => (reason_view(r).0, reason_view(r).1, idle, 0, 0),
        StatusStep::Measure { idle_days, min_size_bytes, depth } => (6, seq![], idle_days, min_size_bytes, depth),
    }
}

/// How a status scan goes on with a repository.
pub fn status_step(
    entry: &config::RepoEntry,
    settings: &config::Settings,
    exists: bool,
    ignore_file: bool,
    config: &Result<Option<config::PerRepoConfig>, String>,
) -> (r: StatusStep)
    ensures
        step_view(r) == status_step_of(entry@, *settings, exists, ignore_file, pass::loaded_view(*config)),
{
    let reg = match entry.override_idle_days {
        Some(d) => d,
        None => settings.idle_days,
    };
    if !exists {
        return StatusStep::Settled(SkipReason::PathMissing, reg);
    }
    let c = match config {
        Err(e) => return StatusStep::Settled(SkipReason::ConfigError(e.clone()), reg),
        Ok(c) => c,
    };
    let idle = match c {
        Some(cv) => match cv.override_idle_days {
            Some(d) => d,
            None => reg,
        },
        None => reg,
    };
    let opted_out = match c {
        Some(cv) => cv.ignore,
        None => false,
    };
    if !entry.enabled || ignore_file || opted_out {
        return StatusStep::Settled(SkipReason::Ignored, idle);
    }
    let mb = match c {
        Some(cv) => match cv.min_size_mb {
            Some(m) => m,
            None => settings.min_size_mb,
        },
        None => settings.min_size_mb,
    };
    let depth = match c {
        Some(cv) => match cv.scan_depth {
            Some(d) => d,
            None => settings.scan_depth,
        },
        None => settings.scan_depth,
    };
    let floor = match mb.checked_mul(engine::BYTES_PER_MIB) {
        Some(b) => b,
        None => u64::MAX,
    };
    StatusStep::Measure { idle_days: idle, min_size_bytes: floor, depth }
}

/// The reason a measured repository gets: active if not idle, else a candidate when
/// it has bloat and `NoBloat` when not.
pub open spec fn measured_reason(is_idle: bool, bloat_dirs: nat) -> (u8, Seq<char>) {
    if !is_idle {
        (1, seq![])
    } else if bloat_dirs == 0 {
        (3, seq![])
    } else {
        (0, seq![])
    }
}

/// The reason a measured repository gets. One activity reading drives both this and
/// the dashboard's activity column.
pub fn measured(is_idle: bool, bloat_dirs: usize) -> (r: SkipReason)
    ensures
        reason_view(r) == measured_reason(is_idle, bloat_dirs as nat),
{
    if !is_idle {
        SkipReason::Active
    } else if bloat_dirs == 0 {
        SkipReason::NoBloat
    } else {
        SkipReason::Candidate
    }
}

/// The sum of a list of sizes.
pub open spec fn total(sizes: Seq<u64>) -> nat
    decreases sizes.len(),
{
    if sizes.len() == 0 {
        0
    } else {
        total(sizes.drop_last()) + sizes.last() as nat
    }
}

proof fn lemma_total_prefix(sizes: Seq<u64>, i: int)
    requires
        0 <= i <= sizes.len(),
    ensures
        total(sizes.take(i)) <= total(sizes),
    decreases sizes.len() - i,
{
    if i < sizes.len() {
        lemma_total_prefix(sizes, i + 1);
        assert(sizes.take(i + 1).drop_last() == sizes.take(i));
    } else {
        assert(sizes.take(i) == sizes);
    }
}

/// The bytes a repository's bloat directories would give back.
pub fn reclaimable(sizes: &Vec<u64>) -> (r: u64)
    requires
        total(sizes@) <= u64::MAX,
    ensures
        r == total(sizes@),
{
    let mut sum: u64 = 0;
    let mut i: usize = 0;
    while i < sizes.len()
        invariant
            i <= sizes@.len(),
            total(sizes@) <= u64::MAX,
            sum == total(sizes@.take(i as int)),
        decreases sizes@.len() - i,
    {
        assert(sizes@.take(i + 1).drop_last() == sizes@.take(i as int));
        proof {
            lemma_total_prefix(sizes@, i + 1);
        }
        sum = sum + sizes[i];
        i = i + 1;
    }
    assert(sizes@.take(i as int) == sizes@);
    sum
}

/// The order the dashboard lists repositories in: what can be acted on (candidates)
/// first, then what is merely there, then what is gone, and by path within each band,
/// so dead entries never push the rows that matter below the fold. `reasons[i]` and
/// `paths[i]` describe row `i`; the result lists row indices.
pub fn dashboard_order(reasons: &Vec<SkipReason>, paths: &Vec<String>) -> (r: Vec<usize>)
    requires
        reasons@.len() == paths@.len(),
    ensures
        order::is_permutation(r@, reasons@.len()),
        order::is_sorted_by(
            r@,
            order::keys_of(reasons@.map_values(|x: SkipReason| engine::skip_rank(x)), text::views(paths@)),
        ),
{
    let ghost ranks = reasons@.map_values(|x: SkipReason| engine::skip_rank(x));
    let mut bands: Vec<u8> = Vec::new();
    let mut i: usize = 0;
    while i < reasons.len()
        invariant
            i <= reasons@.len(),
            ranks == reasons@.map_values(|x: SkipReason| engine::skip_rank(x)),
            bands@ == ranks.take(i as int),
        decreases reasons@.len() - i,
    {
        bands.push(reasons[i].rank());
        assert(bands@ =~= ranks.take(i + 1));
        i = i + 1;
    }
    assert(ranks.take(i as int) == ranks);
    order::sorted_rows(&bands, paths)
}

/// A repository the dashboard measures is held to the same limits a run applies:
/// the size floor is the config's own `min_size_mb` when it sets one, else the global
/// `min_size_mb`, both in bytes as [`pass::size_floor`] gives them for a run whose
/// floor is the global one; the idle window is the config's override, else the
/// registry entry's, else the global `idle_days`.
pub proof fn law_the_dashboard_measures_with_the_run_limits(
    entry: config::EntryView,
    settings: config::Settings,
    exists: bool,
    ignore_file: bool,
    config: Result<Option<config::ConfigView>, Seq<char>>,
)
    ensures
        status_step_of(entry, settings, exists, ignore_file, config).0 == 6 <==> {
            &&& exists
            &&& config is Ok
            &&& entry.enabled
            &&& !ignore_file
            &&& !(config matches Ok(Some(c)) && c.ignore)
        },
        status_step_of(entry, settings, exists, ignore_file, config).0 == 6 ==> {
            let step = status_step_of(entry, settings, exists, ignore_file, config);
            &&& step.3 == pass::size_floor(pass::mib_bytes(settings.min_size_mb), false, config->Ok_0)
            &&& (config matches Ok(None) || (config matches Ok(Some(c)) && c.min_size_mb is None))
                ==> step.3 == pass::mib_bytes(settings.min_size_mb)
            &&& (config->Ok_0 is Some && config->Ok_0->0.min_size_mb is Some) ==> step.3 == pass::mib_bytes(
                config->Ok_0->0.min_size_mb->0,
            )
            &&& step.2 == pass::effective_idle(registry_idle(entry, settings), config->Ok_0)
            &&& (entry.override_idle_days is None && (config matches Ok(None) || (config matches Ok(Some(c))
                && c.override_idle_days is None))) ==> step.2 == settings.idle_days
        },
{
}

} // verus!
