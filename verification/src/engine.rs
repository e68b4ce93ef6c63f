//! The pruning engine's decisions: what a pass reports, which package managers it may
//! act on, what it is told to do, how a status scan is sized and ordered, and how a
//! repository is named on the dashboard.
//!
//! Walking repositories, asking Git about activity and deleting directories belong to
//! the caller.
use vstd::prelude::*;

use crate::config;
use crate::text;

verus! {

broadcast use vstd::seq_lib::group_seq_properties;

/// Bytes in one mebibyte: the unit the size floor is configured in.
pub const BYTES_PER_MIB: u64 = 1048576;

/// The most threads a status scan starts.
pub const STATUS_SCAN_MAX_THREADS: usize = 32;

/// Threads per core a status scan starts when not told otherwise.
pub const STATUS_SCAN_THREADS_PER_CORE: usize = 2;

/// How deep a repository is walked for projects by default.
pub const DEFAULT_SCAN_DEPTH: usize = 6;

/// The longest any one package-manager command may run by default, in seconds.
pub const DEFAULT_COMMAND_TIMEOUT_SECS: u64 = 600;

/// Idle days build-tool directories wait by default.
pub const DEFAULT_BUILD_IDLE_DAYS: u64 = 45;

// ---------------------------------------------------------------------------------
// Outcomes
// ---------------------------------------------------------------------------------

/// The outcome of pruning a single bloat directory.
pub enum PruneStatus {
    /// Successfully deleted.
    Pruned,
    /// The repository is still active.
    SkippedActive,
    /// A dry run.
    SkippedDryRun,
    /// Lockfile enforcement failed.
    LockfileError(String),
    /// The repository's last activity could not be determined.
    ActivityCheckError(String),
    /// The registered path no longer exists.
    PathMissing,
    /// The bloat directory does not exist.
    NoBloat,
    /// The repository is disabled in the registry.
    Disabled,
    /// The repository opted out.
    SkippedIgnored,
    /// Deleting failed.
    DeleteError(String),
    /// The bloat directory is a symlink or junction, so it was left alone.
    SkippedSymlink(String),
    /// The repository's config could not be parsed, so it was left alone.
    ConfigError(String),
}

/// How a prune outcome reads when printed.
pub open spec fn prune_status_text(s: PruneStatus) -> Seq<char> {
    match s {
        PruneStatus::Pruned => "Pruned"@,
        PruneStatus::SkippedActive => "Skipped (active)"@,
        PruneStatus::SkippedDryRun => "Skipped (dry run)"@,
        PruneStatus::LockfileError(e) => "Lockfile error: "@ + e@,
        PruneStatus::ActivityCheckError(e) => "Activity check failed: "@ + e@,
        PruneStatus::PathMissing => "Path no longer exists (`devp unlink --missing` clears it)"@,
        PruneStatus::NoBloat => "No bloat found"@,
        PruneStatus::Disabled => "Disabled"@,
        PruneStatus::SkippedIgnored => "Ignored (ignore.devprune.json or ignore config in .devprune.json)"@,
        PruneStatus::DeleteError(e) => "Delete error: "@ + e@,
        PruneStatus::SkippedSymlink(e) => "Skipped (symlink): "@ + e@,
        PruneStatus::ConfigError(e) => "Unreadable .devprune.json: "@ + e@,
    }
}

fn labelled(head: &str, detail: &String) -> (r: String)
    ensures
        r@ == head@ + detail@,
{
    let mut v: Vec<char> = Vec::new();
    text::push_str(&mut v, head);
    text::push_str(&mut v, detail.as_str());
    text::string_of(&v)
}

impl PruneStatus {
    /// The outcome as the run report prints it.
    pub fn text(&self) -> (r: String)
        ensures
            r@ == prune_status_text(*self),
    {
        match self {
            PruneStatus::Pruned => text::owned("Pruned"),
            PruneStatus::SkippedActive => text::owned("Skipped (active)"),
            PruneStatus::SkippedDryRun => text::owned("Skipped (dry run)"),
            PruneStatus::LockfileError(e) => labelled("Lockfile error: ", e),
            PruneStatus::ActivityCheckError(e) => labelled("Activity check failed: ", e),
            PruneStatus::PathMissing => text::owned(
                "Path no longer exists (`devp unlink --missing` clears it)",
            ),
            PruneStatus::NoBloat => text::owned("No bloat found"),
            PruneStatus::Disabled => text::owned("Disabled"),
            PruneStatus::SkippedIgnored => text::owned(
                "Ignored (ignore.devprune.json or ignore config in .devprune.json)",
            ),
            PruneStatus::DeleteError(e) => labelled("Delete error: ", e),
            PruneStatus::SkippedSymlink(e) => labelled("Skipped (symlink): ", e),
            PruneStatus::ConfigError(e) => labelled("Unreadable .devprune.json: ", e),
        }
    }
}

/// Why a repository was or was not selected as a prune candidate.
pub enum SkipReason {
    /// Has prunable bloat: this is a candidate.
    Candidate,
    /// Active recently.
    Active,
    /// Opted out or disabled.
    Ignored,
    /// No recognised package manager or bloat.
    NoBloat,
    /// The path no longer exists.
    PathMissing,
    /// The repository's config does not parse.
    ConfigError(String),
}

/// How a skip reason reads on the dashboard.
pub open spec fn skip_reason_text(r: SkipReason) -> Seq<char> {
    match r {
        SkipReason::Candidate => "Candidate"@,
        SkipReason::Active => "Active (not idle)"@,
        SkipReason::Ignored => "Ignored"@,
        SkipReason::NoBloat => "No bloat found"@,
        SkipReason::PathMissing => "Path missing"@,
        SkipReason::ConfigError(_) => "Unreadable .devprune.json"@,
    }
}

/// The band a skip reason sorts into: what can be acted on, what is merely there, and
/// what is gone.
pub open spec fn skip_rank(r: SkipReason) -> u8 {
    match r {
        SkipReason::Candidate => 0,
        SkipReason::PathMissing => 2,
        _ => 1,
    }
}

impl SkipReason {
    /// The reason as the dashboard prints it.
    pub fn text(&self) -> (r: String)
        ensures
            r@ == skip_reason_text(*self),
    {
        match self {
            SkipReason::Candidate => text::owned("Candidate"),
            SkipReason::Active => text::owned("Active (not idle)"),
            SkipReason::Ignored => text::owned("Ignored"),
            SkipReason::NoBloat => text::owned("No bloat found"),
            SkipReason::PathMissing => text::owned("Path missing"),
            SkipReason::ConfigError(_) => text::owned("Unreadable .devprune.json"),
        }
    }

    /// The band this reason sorts into on the dashboard.
    pub fn rank(&self) -> (r: u8)
        ensures
            r == skip_rank(*self),
    {
        match self {
            SkipReason::Candidate => 0,
            SkipReason::PathMissing => 2,
            _ => 1,
        }
    }
}

// ---------------------------------------------------------------------------------
// Which package managers a pass may act on
// ---------------------------------------------------------------------------------

/// Which package managers a pass is allowed to act on: all of them, unless `only` or
/// `skip` says otherwise. Both hold lower-case known adapter names, each once.
pub struct AdapterFilter {
    pub only: Option<Vec<String>>,
    pub skip: Vec<String>,
}

/// The abstract value of a filter.
pub open spec fn filter_view(f: &AdapterFilter) -> (Option<Seq<Seq<char>>>, Seq<Seq<char>>) {
    (
        match f.only {
            Some(o) => Some(text::views(o@)),
            None => None,
        },
        text::views(f.skip@),
    )
}

/// The names of one `--only` or `--skip` value: comma-separated, trimmed, lower-cased,
/// empty pieces dropped, each kept once in the order first given; or the refusal of a
/// name no adapter answers to, or of a value naming none.
pub open spec fn parsed_names(pieces: Seq<Seq<char>>, known: Seq<Seq<char>>, flag: Seq<char>, acc: Seq<Seq<char>>) -> Result<Seq<Seq<char>>, Seq<char>>
    decreases pieces.len(),
{
    if pieces.len() == 0 {
        if acc.len() == 0 {
            Err("`--"@ + flag + "` was given no adapter names."@)
        } else {
            Ok(acc)
        }
    } else {
        let name = text::lowercase(text::trim(pieces[0]));
        if name.len() == 0 {
            parsed_names(pieces.drop_first(), known, flag, acc)
        } else if !known.contains(name) {
            Err("`--"@ + flag + " "@ + name + "` names no known package manager. Available: "@
                + joined_with(known, ", "@) + "."@)
        } else if acc.contains(name) {
            parsed_names(pieces.drop_first(), known, flag, acc)
        } else {
            parsed_names(pieces.drop_first(), known, flag, acc.push(name))
        }
    }
}

/// Names joined with a separator.
pub open spec fn joined_with(names: Seq<Seq<char>>, sep: Seq<char>) -> Seq<char>
    decreases names.len(),
{
    if names.len() == 0 {
        seq![]
    } else if names.len() == 1 {
        names[0]
    } else {
        joined_with(names.drop_last(), sep) + sep + names.last()
    }
}

pub(crate) fn join_with(names: &Vec<String>, sep: &str) -> (r: Vec<char>)
    ensures
        r@ == joined_with(text::views(names@), sep@),
{
    let ghost ns = text::views(names@);
    let mut out: Vec<char> = Vec::new();
    let mut i: usize = 0;
    while i < names.len()
        invariant
            i <= names.len(),
            ns == text::views(names@),
            out@ == joined_with(ns.take(i as int), sep@),
        decreases names.len() - i,
    {
        assert(ns.take(i + 1).drop_last() == ns.take(i as int));
        assert(ns[i as int] == names@[i as int]@);
        if i > 0 {
            text::push_str(&mut out, sep);
        }
        text::push_str(&mut out, names[i].as_str());
        proof {
            if i == 0 {
                assert(out@ =~= ns.take(1)[0]);
            }
        }
        i = i + 1;
    }
    assert(ns.take(i as int) == ns);
    out
}

fn has_string(v: &Vec<String>, x: &[char]) -> (r: bool)
    ensures
        r == text::views(v@).contains(x@),
{
    let mut i: usize = 0;
    while i < v.len()
        invariant
            i <= v.len(),
            forall|j: int| 0 <= j < i ==> text::views(v@)[j] != x@,
        decreases v.len() - i,
    {
        let c = text::chars_of(v[i].as_str());
        if text::chars_eq(&c, x) {
            assert(text::views(v@)[i as int] == x@);
            return true;
        }
        i = i + 1;
    }
    false
}

/// One `--only` / `--skip` value as adapter names.
fn parse_names(raw: &str, known: &Vec<String>, flag: &str) -> (r: Result<Vec<String>, String>)
    ensures
        match r {
            Ok(v) => parsed_names(
                crate::update::split_on(raw@, ','),
                text::views(known@),
                flag@,
                seq![],
            ) == Ok::<Seq<Seq<char>>, Seq<char>>(text::views(v@)),
            Err(e) => parsed_names(
                crate::update::split_on(raw@, ','),
                text::views(known@),
                flag@,
                seq![],
            ) == Err::<Seq<Seq<char>>, Seq<char>>(e@),
        },
{
    let rv = text::chars_of(raw);
    let pieces = crate::update::split_on_chars(&rv, ',');
    let ghost ps = text::seqs_of(pieces@);
    let ghost kn = text::views(known@);
    let mut out: Vec<String> = Vec::new();
    let mut i: usize = 0;
    assert(text::views(out@) =~= Seq::<Seq<char>>::empty());
    assert(ps.skip(0) == ps);
    while i < pieces.len()
        invariant
            i <= pieces.len(),
            ps == text::seqs_of(pieces@),
            ps == crate::update::split_on(raw@, ','),
            kn == text::views(known@),
            parsed_names(ps, kn, flag@, seq![]) == parsed_names(ps.skip(i as int), kn, flag@, text::views(out@)),
        decreases pieces.len() - i,
    {
        let ghost rest = ps.skip(i as int);
        assert(rest[0] == pieces@[i as int]@);
        assert(rest.drop_first() == ps.skip(i + 1));
        let t = text::trim_chars(&pieces[i]);
        let ts = text::string_of(&t);
        let lower = text::to_lowercase(ts.as_str());
        let name = text::chars_of(lower.as_str());
        if name.len() > 0 {
            if !has_string(known, &name) {
                let mut m: Vec<char> = Vec::new();
                text::push_str(&mut m, "`--");
                text::push_str(&mut m, flag);
                text::push_str(&mut m, " ");
                text::push_all(&mut m, &name);
                text::push_str(&mut m, "` names no known package manager. Available: ");
                let all = join_with(known, ", ");
                text::push_all(&mut m, &all);
                text::push_str(&mut m, ".");
                return Err(text::string_of(&m));
            }
            if !has_string(&out, &name) {
                let ghost before = out@;
                out.push(lower);
                assert(text::views(out@) =~= text::views(before).push(name@));
            }
        }
        i = i + 1;
    }
    assert(ps.skip(i as int) =~= Seq::<Seq<char>>::empty());
    if out.len() == 0 {
        let mut m: Vec<char> = Vec::new();
        text::push_str(&mut m, "`--");
        text::push_str(&mut m, flag);
        text::push_str(&mut m, "` was given no adapter names.");
        return Err(text::string_of(&m));
    }
    Ok(out)
}

/// The first `--only` name that `--skip` also lists.
pub open spec fn first_clash(only: Seq<Seq<char>>, skip: Seq<Seq<char>>) -> Option<Seq<char>>
    decreases only.len(),
{
    if only.len() == 0 {
        None
    } else if skip.contains(only[0]) {
        Some(only[0])
    } else {
        first_clash(only.drop_first(), skip)
    }
}

/// The filter `--only` and `--skip` describe, or why they cannot be honoured.
pub open spec fn filter_from(
    only: Option<Seq<char>>,
    skip: Option<Seq<char>>,
    known: Seq<Seq<char>>,
) -> Result<(Option<Seq<Seq<char>>>, Seq<Seq<char>>), Seq<char>> {
    let o = match only {
        Some(raw) => Some(parsed_names(crate::update::split_on(raw, ','), known, "only"@, seq![])),
        None => None,
    };
    let s = match skip {
        Some(raw) => Some(parsed_names(crate::update::split_on(raw, ','), known, "skip"@, seq![])),
        None => None,
    };
    if o matches Some(Err(_)) {
        Err(o->0->Err_0)
    } else if s matches Some(Err(_)) {
        Err(s->0->Err_0)
    } else {
        let ov = match o {
            Some(Ok(v)) => Some(v),
            _ => None,
        };
        let sv = match s {
            Some(Ok(v)) => v,
            _ => seq![],
        };
        match ov {
            Some(names) => match first_clash(names, sv) {
                Some(c) => Err("`"@ + c + "` is in both --only and --skip; pick one."@),
                None => Ok((ov, sv)),
            },
            None => Ok((ov, sv)),
        }
    }
}

fn find_clash(only: &Vec<String>, skip: &Vec<String>) -> (r: Option<usize>)
    ensures
        match r {
            Some(i) => i < only.len() && first_clash(text::views(only@), text::views(skip@))
                == Some(text::views(only@)[i as int]),
            None => first_clash(text::views(only@), text::views(skip@)) is None,
        },
{
    let ghost ov = text::views(only@);
    let ghost sv = text::views(skip@);
    let mut i: usize = 0;
    assert(ov.skip(0) == ov);
    while i < only.len()
        invariant
            i <= only.len(),
            ov == text::views(only@),
            sv == text::views(skip@),
            first_clash(ov, sv) == first_clash(ov.skip(i as int), sv),
        decreases only.len() - i,
    {
        assert(ov.skip(i as int)[0] == ov[i as int]);
        assert(ov.skip(i as int).drop_first() == ov.skip(i + 1));
        let c = text::chars_of(only[i].as_str());
        if has_string(skip, &c) {
            return Some(i);
        }
        i = i + 1;
    }
    None
}

/// The names parsed from one flag's value are known names, each once.
proof fn lemma_parsed_names_clean(pieces: Seq<Seq<char>>, known: Seq<Seq<char>>, flag: Seq<char>, acc: Seq<Seq<char>>)
    requires
        acc.no_duplicates(),
        forall|k: int| 0 <= k < acc.len() ==> known.contains(#[trigger] acc[k]),
    ensures
        parsed_names(pieces, known, flag, acc) matches Ok(v) ==> v.len() > 0 && v.no_duplicates() && forall|k: int|
            0 <= k < v.len() ==> known.contains(#[trigger] v[k]),
    decreases pieces.len(),
{
    if pieces.len() > 0 {
        let name = text::lowercase(text::trim(pieces[0]));
        if name.len() > 0 && known.contains(name) && !acc.contains(name) {
            let next = acc.push(name);
            assert forall|a: int, b: int| 0 <= a < b < next.len() implies next[a] != next[b] by {
                if b == acc.len() {
                    assert(acc[a] == next[a]);
                }
            }
            assert forall|k: int| 0 <= k < next.len() implies known.contains(#[trigger] next[k]) by {
                if k < acc.len() {
                    assert(next[k] == acc[k]);
                }
            }
            lemma_parsed_names_clean(pieces.drop_first(), known, flag, next);
        } else {
            lemma_parsed_names_clean(pieces.drop_first(), known, flag, acc);
        }
    }
}

/// A filter that is accepted names only package managers that exist, each once, and
/// never one in both lists; and no flags at all is the filter that lets everything
/// through.
pub proof fn law_a_filter_names_known_adapters_once(only: Option<Seq<char>>, skip: Option<Seq<char>>, known: Seq<Seq<char>>)
    ensures
        filter_from(None, None, known) == Ok::<(Option<Seq<Seq<char>>>, Seq<Seq<char>>), Seq<char>>((None, seq![])),
        filter_from(only, skip, known) matches Ok((o, s)) ==> {
            &&& s.no_duplicates()
            &&& forall|k: int| 0 <= k < s.len() ==> known.contains(#[trigger] s[k])
            &&& o matches Some(names) ==> {
                &&& names.len() > 0
                &&& names.no_duplicates()
                &&& forall|k: int| 0 <= k < names.len() ==> known.contains(#[trigger] names[k]) && !s.contains(names[k])
            }
        },
{
    if let Some(raw) = only {
        lemma_parsed_names_clean(crate::update::split_on(raw, ','), known, "only"@, seq![]);
    }
    if let Some(raw) = skip {
        lemma_parsed_names_clean(crate::update::split_on(raw, ','), known, "skip"@, seq![]);
    }
    if let Ok((Some(names), s)) = filter_from(only, skip, known) {
        lemma_no_clash(names, s);
    }
}

/// With no clash, no `--only` name is in the `--skip` list.
proof fn lemma_no_clash(only: Seq<Seq<char>>, skip: Seq<Seq<char>>)
    ensures
        first_clash(only, skip) is None ==> forall|k: int| 0 <= k < only.len() ==> !skip.contains(#[trigger] only[k]),
    decreases only.len(),
{
    if only.len() > 0 {
        lemma_no_clash(only.drop_first(), skip);
        if first_clash(only, skip) is None {
            assert forall|k: int| 0 <= k < only.len() implies !skip.contains(#[trigger] only[k]) by {
                if k > 0 {
                    assert(only[k] == only.drop_first()[k - 1]);
                }
            }
        }
    }
}

impl AdapterFilter {
    /// The filter that lets everything through.
    pub fn unrestricted() -> (f: Self)
        ensures
            filter_view(&f) == (None::<Seq<Seq<char>>>, Seq::<Seq<char>>::empty()),
    {
        let f = AdapterFilter { only: None, skip: Vec::new() };
        assert(text::views(f.skip@) =~= Seq::<Seq<char>>::empty());
        f
    }

    /// Build a filter from comma-separated `--only` / `--skip` values, given the names
    /// the adapters answer to. Names are matched case-insensitively; a name no adapter
    /// answers to, a value naming none, and a name in both lists are all refused.
    pub fn new(only: Option<&str>, skip: Option<&str>, known: &Vec<String>) -> (r: Result<Self, String>)
        ensures
            match r {
                Ok(f) => filter_from(
                    match only {
                        Some(o) => Some(o@),
                        None => None,
                    },
                    match skip {
                        Some(s) => Some(s@),
                        None => None,
                    },
                    text::views(known@),
                ) == Ok::<(Option<Seq<Seq<char>>>, Seq<Seq<char>>), Seq<char>>(filter_view(&f)),
                Err(e) => filter_from(
                    match only {
                        Some(o) => Some(o@),
                        None => None,
                    },
                    match skip {
                        Some(s) => Some(s@),
                        None => None,
                    },
                    text::views(known@),
                ) == Err::<(Option<Seq<Seq<char>>>, Seq<Seq<char>>), Seq<char>>(e@),
            },
    {
        let o: Option<Vec<String>> = match only {
            Some(raw) => match parse_names(raw, known, "only") {
                Ok(v) => Some(v),
                Err(e) => return Err(e),
            },
            None => None,
        };
        let s: Vec<String> = match skip {
            Some(raw) => match parse_names(raw, known, "skip") {
                Ok(v) => v,
                Err(e) => return Err(e),
            },
            None => {
                let v: Vec<String> = Vec::new();
                assert(text::views(v@) =~= Seq::<Seq<char>>::empty());
                v
            },
        };
        match &o {
            Some(names) => match find_clash(names, &s) {
                Some(i) => {
                    let mut m: Vec<char> = Vec::new();
                    text::push_str(&mut m, "`");
                    text::push_str(&mut m, names[i].as_str());
                    text::push_str(&mut m, "` is in both --only and --skip; pick one.");
                    return Err(text::string_of(&m));
                },
                None => {},
            },
            None => {},
        }
        Ok(AdapterFilter { only: o, skip: s })
    }

    /// Whether this filter would let `name` through: not skipped, and listed when
    /// there is an `--only` list.
    pub fn allows(&self, name: &str) -> (r: bool)
        ensures
            r == (!filter_view(self).1.contains(name@) && match filter_view(self).0 {
                Some(o) => o.contains(name@),
                None => true,
            }),
    {
        let n = text::chars_of(name);
        if has_string(&self.skip, &n) {
            return false;
        }
        match &self.only {
            Some(o) => has_string(o, &n),
            None => true,
        }
    }

    /// Whether the filter restricts anything at all.
    pub fn is_unrestricted(&self) -> (r: bool)
        ensures
            r == (filter_view(self).0 is None && filter_view(self).1.len() == 0),
    {
        self.only.is_none() && self.skip.len() == 0
    }

    /// Human-readable summary for the run header, or `None` when nothing is filtered.
    pub fn describe(&self) -> (r: Option<String>)
        ensures
            text::opt_view(r) == filter_description(filter_view(self)),
    {
        if self.is_unrestricted() {
            return None;
        }
        let mut out: Vec<char> = Vec::new();
        match &self.only {
            Some(o) => {
                text::push_str(&mut out, "only ");
                let j = join_with(o, ", ");
                text::push_all(&mut out, &j);
            },
            None => {},
        }
        if self.skip.len() > 0 {
            if self.only.is_some() {
                text::push_str(&mut out, "; ");
            }
            text::push_str(&mut out, "skipping ");
            let j = join_with(&self.skip, ", ");
            text::push_all(&mut out, &j);
        }
        Some(text::string_of(&out))
    }
}

/// The run-header summary of a filter.
pub open spec fn filter_description(f: (Option<Seq<Seq<char>>>, Seq<Seq<char>>)) -> Option<Seq<char>> {
    if f.0 is None && f.1.len() == 0 {
        None
    } else {
        let only_part = match f.0 {
            Some(o) => "only "@ + joined_with(o, ", "@),
            None => seq![],
        };
        let skip_part = if f.1.len() > 0 {
            (if f.0 is Some { "; "@ } else { seq![] }) + "skipping "@ + joined_with(f.1, ", "@)
        } else {
            seq![]
        };
        Some(only_part + skip_part)
    }
}

// ---------------------------------------------------------------------------------
// Options and results
// ---------------------------------------------------------------------------------

/// Everything that shapes a prune pass beyond the repository itself.
pub struct PruneOptions {
    /// Days of inactivity required before the repository is eligible.
    pub idle_days: u64,
    /// Report sizes and stop.
    pub dry_run: bool,
    /// Bypass the idle check; lockfile verification still applies.
    pub force: bool,
    /// Restrict the pass to these repository-relative bloat directory labels.
    pub only_dirs: Option<Vec<String>>,
    /// Which package managers may act.
    pub adapters: AdapterFilter,
    /// Smallest directory worth deleting; `0` disables the floor.
    pub min_size_bytes: u64,
    /// How deep to walk each repository looking for projects.
    pub scan_depth: usize,
    /// Whether an adapter may rewrite its tracked lockfile.
    pub allow_manifest_rewrite: bool,
    /// Ceiling on any one package-manager command, in seconds.
    pub command_timeout_secs: u64,
    /// Idle days required before build-tool directories are touched.
    pub build_idle_days: u64,
}

impl Default for PruneOptions {
    /// Nothing idle enough to wait for, no dry run or force, every adapter, no size
    /// floor, and the default depth, lockfile policy, timeout and build-tree window.
    fn default() -> (o: Self)
        ensures
            o.idle_days == 0,
            !o.dry_run,
            !o.force,
            o.only_dirs is None,
            filter_view(&o.adapters) == (None::<Seq<Seq<char>>>, Seq::<Seq<char>>::empty()),
            o.min_size_bytes == 0,
            o.scan_depth == DEFAULT_SCAN_DEPTH,
            !o.allow_manifest_rewrite,
            o.command_timeout_secs == DEFAULT_COMMAND_TIMEOUT_SECS,
            o.build_idle_days == DEFAULT_BUILD_IDLE_DAYS,
    {
        PruneOptions::new(0, false, false)
    }
}

impl PruneOptions {
    /// The common case: prune everything eligible in this repository, with every other
    /// option at its default.
    pub fn new(idle_days: u64, dry_run: bool, force: bool) -> (o: Self)
        ensures
            o.idle_days == idle_days,
            o.dry_run == dry_run,
            o.force == force,
            o.only_dirs is None,
            filter_view(&o.adapters) == (None::<Seq<Seq<char>>>, Seq::<Seq<char>>::empty()),
            o.min_size_bytes == 0,
            o.scan_depth == DEFAULT_SCAN_DEPTH,
            !o.allow_manifest_rewrite,
            o.command_timeout_secs == DEFAULT_COMMAND_TIMEOUT_SECS,
            o.build_idle_days == DEFAULT_BUILD_IDLE_DAYS,
    {
        PruneOptions {
            idle_days,
            dry_run,
            force,
            only_dirs: None,
            adapters: AdapterFilter::unrestricted(),
            min_size_bytes: 0,
            scan_depth: DEFAULT_SCAN_DEPTH,
            allow_manifest_rewrite: false,
            command_timeout_secs: DEFAULT_COMMAND_TIMEOUT_SECS,
            build_idle_days: DEFAULT_BUILD_IDLE_DAYS,
        }
    }
}

/// The project that owns a bloat directory, as a repository-relative label: the
/// label's parent, `.` for one at the repository root.
pub open spec fn owner_of(label: Seq<char>) -> Seq<char> {
    match last_slash(label) {
        Some(i) => label.take(i),
        None => "."@,
    }
}

/// The index of the last `/` in `s`.
pub open spec fn last_slash(s: Seq<char>) -> Option<int>
    decreases s.len(),
{
    if s.len() == 0 {
        None
    } else if s.last() == '/' {
        Some(s.len() - 1)
    } else {
        last_slash(s.drop_last())
    }
}

pub(crate) fn last_slash_index(s: &[char]) -> (r: Option<usize>)
    ensures
        match r {
            Some(i) => last_slash(s@) == Some(i as int) && i < s.len(),
            None => last_slash(s@) is None,
        },
{
    let mut n: usize = s.len();
    assert(s@.take(n as int) == s@);
    while n > 0 && s[n - 1] != '/'
        invariant
            n <= s.len(),
            last_slash(s@) == last_slash(s@.take(n as int)),
        decreases n,
    {
        assert(s@.take(n as int).drop_last() == s@.take(n - 1));
        n = n - 1;
    }
    if n == 0 {
        None
    } else {
        assert(s@.take(n as int).last() == s@[n - 1]);
        Some(n - 1)
    }
}

/// The project directory that owns a bloat directory, as a repository-relative label.
pub fn owning_project(bloat_label: &str) -> (r: String)
    ensures
        r@ == owner_of(bloat_label@),
{
    let l = text::chars_of(bloat_label);
    match last_slash_index(&l) {
        Some(i) => text::string_of(&text::slice_of(&l, 0, i)),
        None => text::owned("."),
    }
}

/// Result of pruning a single bloat directory in a single repository.
pub struct PruneResult {
    /// Path to the repository.
    pub repo_path: String,
    /// Name of the adapter that handled this.
    pub adapter_name: String,
    /// The bloat directory, repository-relative and `/`-separated.
    pub bloat_dir: String,
    /// Bytes freed (0 if not pruned).
    pub size_freed: u64,
    /// Bytes hardlinked into a store outside the pruned directory.
    pub shared_bytes: u64,
    /// The language runtime the directory was built against, where recorded.
    pub runtime: Option<String>,
    /// What happened.
    pub status: PruneStatus,
}

/// The directory a fix command has to be run from: the repository joined with the
/// bloat directory's parent, or the repository itself for one at its root.
pub open spec fn project_dir_of(repo: Seq<char>, bloat: Seq<char>, windows: bool) -> Seq<char> {
    match last_slash(bloat) {
        Some(i) => config::joined(repo, bloat.take(i), windows),
        None => repo,
    }
}

impl PruneResult {
    /// The directory a fix command has to be run from: in a monorepo `backend/.venv`
    /// belongs to `backend`, not to the repository root. `windows` picks the separator
    /// the join uses.
    pub fn project_dir(&self, windows: bool) -> (r: String)
        ensures
            r@ == project_dir_of(self.repo_path@, self.bloat_dir@, windows),
    {
        let b = text::chars_of(self.bloat_dir.as_str());
        match last_slash_index(&b) {
            Some(i) => {
                let parent = text::slice_of(&b, 0, i);
                let h = text::chars_of(self.repo_path.as_str());
                let mut out: Vec<char> = Vec::new();
                text::push_all(&mut out, &h);
                if !(h.len() == 0 || h[h.len() - 1] == '/' || (windows && h[h.len() - 1] == '\\')) {
                    out.push(if windows { '\\' } else { '/' });
                }
                text::push_all(&mut out, &parent);
                assert(out@ =~= config::joined(self.repo_path@, b@.take(i as int), windows));
                text::string_of(&out)
            },
            None => self.repo_path.clone(),
        }
    }
}

// ---------------------------------------------------------------------------------
// Status scans
// ---------------------------------------------------------------------------------

/// The threads a status scan starts: the request clamped to 1..=32, and never more
/// than there are repositories (but at least one, the calling thread).
pub open spec fn clamped_threads(requested: usize, total: usize) -> usize {
    let r = if requested < 1 {
        1
    } else if requested > STATUS_SCAN_MAX_THREADS {
        STATUS_SCAN_MAX_THREADS
    } else {
        requested
    };
    let cap = if total < 1 {
        1
    } else {
        total
    };
    if r < cap {
        r
    } else {
        cap
    }
}

/// The clamping half of sizing a status scan.
pub fn clamp_scan_threads(requested: usize, total: usize) -> (n: usize)
    ensures
        n == clamped_threads(requested, total),
        1 <= n <= STATUS_SCAN_MAX_THREADS,
        total > 0 ==> n <= total,
{
    let r = if requested < 1 {
        1
    } else if requested > STATUS_SCAN_MAX_THREADS {
        STATUS_SCAN_MAX_THREADS
    } else {
        requested
    };
    let cap = if total < 1 {
        1
    } else {
        total
    };
    if r < cap {
        r
    } else {
        cap
    }
}

/// The threads a status scan would like before clamping: the override's value when it
/// parses to a positive number, otherwise two per core (four cores when the machine
/// cannot say), saturating.
pub open spec fn requested_threads(override_value: Option<Seq<char>>, cores: Option<usize>) -> usize {
    let from_env = match override_value {
        Some(v) => match text::parse_u64(text::trim(v)) {
            Some(n) => if 0 < n <= usize::MAX {
                Some(n as usize)
            } else {
                None
            },
            None => None,
        },
        None => None,
    };
    match from_env {
        Some(n) => n,
        None => {
            let c = match cores {
                Some(c) => c,
                None => 4,
            };
            if c * STATUS_SCAN_THREADS_PER_CORE > usize::MAX {
                usize::MAX
            } else {
                (c * STATUS_SCAN_THREADS_PER_CORE) as usize
            }
        },
    }
}

/// How many threads a status scan over `total` repositories starts, given the scan
/// override's value (`None` when unset) and the machine's available parallelism.
pub fn scan_thread_count(override_value: Option<&str>, cores: Option<usize>, total: usize) -> (n: usize)
    ensures
        n == clamped_threads(
            requested_threads(
                match override_value {
                    Some(v) => Some(v@),
                    None => None,
                },
                cores,
            ),
            total,
        ),
{
    let mut requested: Option<usize> = None;
    match override_value {
        Some(v) => {
            let c = text::chars_of(v);
            let t = text::trim_chars(&c);
            match text::parse_u64_chars(&t) {
                Some(n) => {
                    if n > 0 && n <= (usize::MAX as u64) {
                        requested = Some(n as usize);
                    }
                },
                None => {},
            }
        },
        None => {},
    }
    let req = match requested {
        Some(n) => n,
        None => {
            let c: usize = match cores {
                Some(c) => c,
                None => 4,
            };
            if c > usize::MAX / STATUS_SCAN_THREADS_PER_CORE {
                usize::MAX
            } else {
                c * STATUS_SCAN_THREADS_PER_CORE
            }
        },
    };
    clamp_scan_threads(req, total)
}

/// Whether repository `j` outranks repository `i` for the top of the dashboard: more
/// reclaimable bytes, or as many and earlier.
pub open spec fn outranks(bytes: Seq<u64>, j: int, i: int) -> bool {
    bytes[j] > bytes[i] || (bytes[j] == bytes[i] && j < i)
}

/// How many repositories outrank repository `i`.
pub open spec fn rank_of(bytes: Seq<u64>, i: int) -> nat {
    Set::new(|j: int| 0 <= j < bytes.len() && outranks(bytes, j, i)).len()
}

/// Whether repository `i` is among the `n` with the most reclaimable space.
pub open spec fn in_top(bytes: Seq<u64>, i: int, n: nat) -> bool {
    rank_of(bytes, i) < n
}

/// The indices of the `n` repositories with the most reclaimable space, ties going to
/// the earlier one, in dashboard order; every index when `top` is `None`.
pub open spec fn top_indices(bytes: Seq<u64>, top: Option<usize>, upto: int) -> Seq<usize>
    decreases upto,
{
    if upto <= 0 {
        seq![]
    } else {
        let rest = top_indices(bytes, top, upto - 1);
        let i = upto - 1;
        let keep = match top {
            Some(n) => in_top(bytes, i, n as nat),
            None => true,
        };
        if keep {
            rest.push(i as usize)
        } else {
            rest
        }
    }
}

proof fn lemma_count_prefix(bytes: Seq<u64>, i: int, k: int)
    requires
        0 <= i < bytes.len(),
        0 <= k <= bytes.len(),
    ensures
        Set::new(|j: int| 0 <= j < k && outranks(bytes, j, i)).finite(),
        Set::new(|j: int| 0 <= j < k && outranks(bytes, j, i)).len() <= k,
    decreases k,
{
    let s = Set::new(|j: int| 0 <= j < k && outranks(bytes, j, i));
    if k == 0 {
        assert(s =~= Set::<int>::empty());
    } else {
        lemma_count_prefix(bytes, i, k - 1);
        let s0 = Set::new(|j: int| 0 <= j < k - 1 && outranks(bytes, j, i));
        if outranks(bytes, k - 1, i) {
            assert(s =~= s0.insert(k - 1));
        } else {
            assert(s =~= s0);
        }
    }
}

/// How many repositories outrank repository `i`, counted.
fn count_outranking(bytes: &Vec<u64>, i: usize) -> (c: usize)
    requires
        i < bytes.len(),
    ensures
        c == rank_of(bytes@, i as int),
{
    let mut c: usize = 0;
    let mut k: usize = 0;
    assert(Set::new(|j: int| 0 <= j < 0 && outranks(bytes@, j, i as int)) =~= Set::<int>::empty());
    while k < bytes.len()
        invariant
            i < bytes.len(),
            k <= bytes.len(),
            c <= k,
            c == Set::new(|j: int| 0 <= j < k && outranks(bytes@, j, i as int)).len(),
        decreases bytes.len() - k,
    {
        proof {
            lemma_count_prefix(bytes@, i as int, k as int);
        }
        let ghost s0 = Set::new(|j: int| 0 <= j < k && outranks(bytes@, j, i as int));
        let ghost s1 = Set::new(|j: int| 0 <= j < k + 1 && outranks(bytes@, j, i as int));
        if bytes[k] > bytes[i] || (bytes[k] == bytes[i] && k < i) {
            assert(s1 =~= s0.insert(k as int));
            assert(!s0.contains(k as int));
            c = c + 1;
        } else {
            assert(s1 =~= s0);
        }
        k = k + 1;
    }
    assert(Set::new(|j: int| 0 <= j < k && outranks(bytes@, j, i as int)) =~= Set::new(
        |j: int| 0 <= j < bytes@.len() && outranks(bytes@, j, i as int),
    ));
    c
}

/// The repositories to show when the dashboard is cut to the `top` with the most
/// reclaimable space (`reclaimable[i]` for repository `i`), or all of them: selected by
/// size, then put back in dashboard order so a cut dashboard reads like a shorter
/// version of the full one.
pub fn take_top(reclaimable: &Vec<u64>, top: Option<usize>) -> (r: Vec<usize>)
    ensures
        r@ == top_indices(reclaimable@, top, reclaimable.len() as int),
{
    let mut out: Vec<usize> = Vec::new();
    let mut i: usize = 0;
    while i < reclaimable.len()
        invariant
            i <= reclaimable.len(),
            out@ == top_indices(reclaimable@, top, i as int),
        decreases reclaimable.len() - i,
    {
        let keep = match top {
            Some(n) => count_outranking(reclaimable, i) < n,
            None => true,
        };
        if keep {
            out.push(i);
        }
        i = i + 1;
    }
    out
}

proof fn lemma_rank_strict(bytes: Seq<u64>, i: int, j: int)
    requires
        0 <= i < bytes.len(),
        0 <= j < bytes.len(),
        outranks(bytes, j, i),
    ensures
        rank_of(bytes, j) < rank_of(bytes, i),
{
    let n = bytes.len() as int;
    lemma_count_prefix(bytes, i, n);
    lemma_count_prefix(bytes, j, n);
    let si = Set::new(|k: int| 0 <= k < n && outranks(bytes, k, i));
    let sj = Set::new(|k: int| 0 <= k < n && outranks(bytes, k, j));
    assert(Set::new(|k: int| 0 <= k < bytes.len() && outranks(bytes, k, i)) == si);
    assert(Set::new(|k: int| 0 <= k < bytes.len() && outranks(bytes, k, j)) == sj);
    assert(!sj.contains(j));
    assert(sj.insert(j).subset_of(si));
    vstd::set_lib::lemma_len_subset(sj.insert(j), si);
}

proof fn lemma_top_shape(bytes: Seq<u64>, top: Option<usize>, upto: int)
    requires
        0 <= upto <= bytes.len(),
        bytes.len() <= usize::MAX,
    ensures
        forall|a: int, b: int|
            0 <= a < b < top_indices(bytes, top, upto).len() ==> top_indices(bytes, top, upto)[a]
                < top_indices(bytes, top, upto)[b],
        forall|a: int|
            0 <= a < top_indices(bytes, top, upto).len() ==> top_indices(bytes, top, upto)[a] < upto,
        forall|i: int|
            0 <= i < upto ==> (#[trigger] top_indices(bytes, top, upto).contains(i as usize)
                <==> match top {
                Some(n) => in_top(bytes, i, n as nat),
                None => true,
            }),
    decreases upto,
{
    if upto > 0 {
        lemma_top_shape(bytes, top, upto - 1);
        let rest = top_indices(bytes, top, upto - 1);
        let r = top_indices(bytes, top, upto);
        let last = upto - 1;
        let keep = match top {
            Some(n) => in_top(bytes, last, n as nat),
            None => true,
        };
        assert(!rest.contains(last as usize)) by {
            if rest.contains(last as usize) {
                let w = choose|w: int| 0 <= w < rest.len() && rest[w] == last as usize;
                assert(rest[w] < upto - 1);
            }
        }
        if keep {
            assert(r == rest.push(last as usize));
            assert forall|i: int| 0 <= i < upto - 1 implies (#[trigger] r.contains(i as usize)
                <==> rest.contains(i as usize)) by {
                if r.contains(i as usize) {
                    let w = choose|w: int| 0 <= w < r.len() && r[w] == i as usize;
                    if w < rest.len() {
                        assert(rest[w] == r[w]);
                    }
                }
                if rest.contains(i as usize) {
                    let w = choose|w: int| 0 <= w < rest.len() && rest[w] == i as usize;
                    assert(r[w] == rest[w]);
                }
            }
            assert(r[rest.len() as int] == last as usize);
            assert(r.contains(last as usize));
        } else {
            assert(r == rest);
        }
    }
}

/// Cutting the dashboard to the `n` largest never shows more than `n` repositories,
/// keeps them in dashboard order, and shows exactly those no more than `n - 1` others
/// outrank; without a limit it shows every one.
pub proof fn law_take_top_shows_at_most_n(bytes: Seq<u64>, n: usize)
    requires
        bytes.len() <= usize::MAX,
    ensures
        top_indices(bytes, Some(n), bytes.len() as int).len() <= n,
        forall|a: int, b: int|
            0 <= a < b < top_indices(bytes, Some(n), bytes.len() as int).len() ==> top_indices(
                bytes,
                Some(n),
                bytes.len() as int,
            )[a] < top_indices(bytes, Some(n), bytes.len() as int)[b],
        forall|i: int|
            0 <= i < bytes.len() ==> (#[trigger] top_indices(bytes, Some(n), bytes.len() as int).contains(
                i as usize,
            ) <==> rank_of(bytes, i) < n),
        top_indices(bytes, None, bytes.len() as int).len() == bytes.len(),
{
    let len = bytes.len() as int;
    lemma_top_shape(bytes, Some(n), len);
    lemma_top_shape(bytes, None, len);
    let r = top_indices(bytes, Some(n), len);
    let ri = r.map_values(|x: usize| x as int);
    let t = Set::new(|i: int| 0 <= i < len && rank_of(bytes, i) < n);
    assert(ri.no_duplicates()) by {
        assert forall|a: int, b: int| 0 <= a < ri.len() && 0 <= b < ri.len() && a != b implies ri[a]
            != ri[b] by {
            if a < b {
                assert(r[a] < r[b]);
            } else {
                assert(r[b] < r[a]);
            }
        }
    }
    assert(ri.to_set() =~= t) by {
        assert forall|i: int| ri.to_set().contains(i) <==> t.contains(i) by {
            if ri.to_set().contains(i) {
                let w = choose|w: int| 0 <= w < ri.len() && ri[w] == i;
                assert(r.contains(r[w]));
                assert(r[w] < len);
                assert(r[w] as int == i);
                assert(r.contains(i as usize));
                assert(in_top(bytes, i, n as nat));
            }
            if t.contains(i) {
                assert(r.contains(i as usize));
                let w = choose|w: int| 0 <= w < r.len() && r[w] == i as usize;
                assert(ri[w] == i);
            }
        }
    }
    ri.unique_seq_to_set();
    let f = |i: int| rank_of(bytes, i) as int;
    assert(vstd::relations::injective_on(f, t)) by {
        assert forall|a: int, b: int| t.contains(a) && t.contains(b) && f(a) == f(b) implies a == b by {
            if a != b {
                if outranks(bytes, a, b) {
                    lemma_rank_strict(bytes, b, a);
                } else {
                    lemma_rank_strict(bytes, a, b);
                }
            }
        }
    }
    vstd::set_lib::lemma_int_range(0, n as int);
    assert(t.subset_of(vstd::set_lib::set_int_range(0, len)));
    vstd::set_lib::lemma_int_range(0, len);
    vstd::set_lib::lemma_len_subset(t, vstd::set_lib::set_int_range(0, len));
    vstd::set_lib::lemma_map_size(t, t.map(f), f);
    assert(t.map(f).subset_of(vstd::set_lib::set_int_range(0, n as int)));
    vstd::set_lib::lemma_len_subset(t.map(f), vstd::set_lib::set_int_range(0, n as int));
    let all = top_indices(bytes, None, len);
    let alli = all.map_values(|x: usize| x as int);
    assert(alli.no_duplicates()) by {
        assert forall|a: int, b: int| 0 <= a < alli.len() && 0 <= b < alli.len() && a != b implies alli[a]
            != alli[b] by {
            if a < b {
                assert(all[a] < all[b]);
            } else {
                assert(all[b] < all[a]);
            }
        }
    }
    assert(alli.to_set() =~= vstd::set_lib::set_int_range(0, len)) by {
        assert forall|i: int| alli.to_set().contains(i) <==> vstd::set_lib::set_int_range(0, len).contains(i) by {
            if alli.to_set().contains(i) {
                let w = choose|w: int| 0 <= w < alli.len() && alli[w] == i;
                assert(all[w] < len);
            }
            if 0 <= i < len {
                assert(all.contains(i as usize));
                let w = choose|w: int| 0 <= w < all.len() && all[w] == i as usize;
                assert(alli[w] == i);
            }
        }
    }
    alli.unique_seq_to_set();
}

// ---------------------------------------------------------------------------------
// Naming a repository
// ---------------------------------------------------------------------------------

/// A path with its trailing separators and trailing `.` components removed, as
/// `Path::components` skips them on Unix: `a/b/./` becomes `a/b`. A path that is
/// only `.` keeps it, being its own current-directory component.
pub open spec fn trimmed_end(p: Seq<char>) -> Seq<char>
    decreases p.len(),
{
    if p.len() > 0 && p.last() == '/' {
        trimmed_end(p.drop_last())
    } else if p.len() >= 2 && p.last() == '.' && p[p.len() - 2] == '/' {
        trimmed_end(p.drop_last())
    } else {
        p
    }
}

/// A path's last component as `Path::file_name` reads it on Unix: trailing `/`s and
/// `.` components are ignored, and a path ending in `..`, naming the root, or being
/// only `.` has none.
pub open spec fn unix_file_name(p: Seq<char>) -> Option<Seq<char>> {
    let s = trimmed_end(p);
    let name = match last_slash(s) {
        Some(i) => s.skip(i + 1),
        None => s,
    };
    if name.len() == 0 || name == ".."@ || name == "."@ {
        None
    } else {
        Some(name)
    }
}

/// A path's parent as `Path::parent` reads it on Unix: `None` for the root or the
/// empty path, the empty path for a single relative component; trailing `/`s and `.`
/// components are ignored on both sides of the last component.
pub open spec fn unix_parent(p: Seq<char>) -> Option<Seq<char>> {
    let s = trimmed_end(p);
    if s.len() == 0 {
        None
    } else {
        match last_slash(s) {
            Some(i) => {
                let q = trimmed_end(s.take(i));
                if q.len() == 0 {
                    Some(s.take(1))
                } else {
                    Some(q)
                }
            },
            None => Some(seq![]),
        }
    }
}

/// How long `s` is once its trailing separators and `.` components are removed.
fn trimmed_end_len(s: &[char]) -> (n: usize)
    ensures
        n <= s.len(),
        s@.take(n as int) == trimmed_end(s@),
{
    let mut n: usize = s.len();
    assert(s@.take(n as int) =~= s@);
    while n > 0 && (s[n - 1] == '/' || (n >= 2 && s[n - 1] == '.' && s[n - 2] == '/'))
        invariant
            n <= s.len(),
            trimmed_end(s@) == trimmed_end(s@.take(n as int)),
        decreases n,
    {
        assert(s@.take(n as int).drop_last() =~= s@.take(n - 1));
        n = n - 1;
    }
    n
}

/// The last component of a path.
pub fn file_name(p: &str) -> (r: Option<String>)
    ensures
        text::opt_view(r) == unix_file_name(p@),
{
    let v = text::chars_of(p);
    let n = trimmed_end_len(&v);
    let s = text::slice_of(&v, 0, n);
    let name = match last_slash_index(&s) {
        Some(i) => text::slice_of(&s, i + 1, s.len()),
        None => s,
    };
    if name.len() == 0 || text::chars_eq_str(&name, "..") || text::chars_eq_str(&name, ".") {
        None
    } else {
        Some(text::string_of(&name))
    }
}

/// The parent of a path.
pub fn parent_of(p: &str) -> (r: Option<String>)
    ensures
        text::opt_view(r) == unix_parent(p@),
{
    let v = text::chars_of(p);
    let n = trimmed_end_len(&v);
    let s = text::slice_of(&v, 0, n);
    if s.len() == 0 {
        return None;
    }
    match last_slash_index(&s) {
        Some(i) => {
            let head = text::slice_of(&s, 0, i);
            let m = trimmed_end_len(&head);
            if m == 0 {
                Some(text::string_of(&text::slice_of(&s, 0, 1)))
            } else {
                Some(text::string_of(&text::slice_of(&head, 0, m)))
            }
        },
        None => {
            proof {
                reveal_strlit("");
            }
            Some(text::owned(""))
        },
    }
}

/// Whether a directory is a mount point: it has a parent, both could be read, and
/// they sit on different devices. The filesystem root has no parent and so is never
/// one; an unreadable pair is no evidence of a mount.
pub fn is_mount_point(parent: Option<&str>, here_device: Option<u64>, parent_device: Option<u64>) -> (r: bool)
    ensures
        r == (parent is Some && here_device is Some && parent_device is Some && here_device
            != parent_device),
{
    match (parent, here_device, parent_device) {
        (Some(_), Some(a), Some(b)) => a != b,
        _ => false,
    }
}

/// How many of `paths` have `name` as their last component.
pub open spec fn count_named(paths: Seq<Seq<char>>, name: Seq<char>) -> nat
    decreases paths.len(),
{
    if paths.len() == 0 {
        0
    } else {
        count_named(paths.drop_last(), name) + if unix_file_name(paths.last()) == Some(name) {
            1nat
        } else {
            0nat
        }
    }
}

/// The name a repository is shown under: the project's own name when its config
/// gives a non-blank one; otherwise its folder name, prefixed with the parent folder
/// when another registered path shares the folder name; `shown` when the path has no
/// folder name at all.
pub open spec fn display_name(repo: Seq<char>, all: Seq<Seq<char>>, custom: Option<Seq<char>>, shown: Seq<char>) -> Seq<char> {
    if custom matches Some(c) && text::trim(c).len() > 0 {
        custom->0
    } else {
        let folder = match unix_file_name(repo) {
            Some(n) => n,
            None => shown,
        };
        if count_named(all, folder) > 1 && unix_parent(repo) is Some && unix_file_name(unix_parent(repo)->0) is Some {
            unix_file_name(unix_parent(repo)->0)->0 + "/"@ + folder
        } else {
            folder
        }
    }
}

/// A short, disambiguated name for a repository. `custom` is the `project_name` its
/// config gives, if any; `shown` is how the path itself is shown.
pub fn compute_display_name(repo_path: &str, all_paths: &Vec<String>, custom: Option<&str>, shown: &str) -> (r: String)
    ensures
        r@ == display_name(
            repo_path@,
            text::views(all_paths@),
            match custom {
                Some(c) => Some(c@),
                None => None,
            },
            shown@,
        ),
{
    match custom {
        Some(c) => {
            let cv = text::chars_of(c);
            let t = text::trim_chars(&cv);
            if t.len() > 0 {
                return text::owned(c);
            }
        },
        None => {},
    }
    let folder = match file_name(repo_path) {
        Some(n) => n,
        None => text::owned(shown),
    };
    let fv = text::chars_of(folder.as_str());
    let ghost ps = text::views(all_paths@);
    let mut count: usize = 0;
    let mut i: usize = 0;
    while i < all_paths.len()
        invariant
            i <= all_paths.len(),
            ps == text::views(all_paths@),
            count == count_named(ps.take(i as int), fv@),
            count <= i,
        decreases all_paths.len() - i,
    {
        assert(ps.take(i + 1).drop_last() == ps.take(i as int));
        assert(ps[i as int] == all_paths@[i as int]@);
        match file_name(all_paths[i].as_str()) {
            Some(n) => {
                let nv = text::chars_of(n.as_str());
                if text::chars_eq(&nv, &fv) {
                    count = count + 1;
                }
            },
            None => {},
        }
        i = i + 1;
    }
    assert(ps.take(i as int) == ps);
    if count > 1 {
        match parent_of(repo_path) {
            Some(parent) => match file_name(parent.as_str()) {
                Some(pn) => {
                    let mut out: Vec<char> = Vec::new();
                    text::push_str(&mut out, pn.as_str());
                    text::push_str(&mut out, "/");
                    text::push_all(&mut out, &fv);
                    return text::string_of(&out);
                },
                None => {},
            },
            None => {},
        }
    }
    folder
}

} // verus!
