//! The trust report: what the tool guarantees, what this machine's settings widen,
//! and the executables it owns with the digests a scanner sees.
use vstd::prelude::*;

use crate::config;
use crate::daemon::DaemonStatus;
use crate::engine;
use crate::text;

verus! {

broadcast use vstd::seq_lib::group_seq_properties;

/// Where a file's scan report lives, by digest.
pub const VIRUSTOTAL_FILE_BASE: &'static str = "https://www.virustotal.com/gui/file";

/// The note on an alias whose digest matches the managed binary's.
pub const SAME_BYTES_NOTE: &'static str = "The same bytes as dev-prune under a second name, so a scanner builds one reputation record instead of two.";

/// The note on an alias whose digest differs from the managed binary's.
pub const EARLIER_RELEASE_NOTE: &'static str = "An earlier release under a second name: an upgrade replaced dev-prune and this has not caught up. The next dev-prune command you run in a terminal restores the pair.";

/// What one row says about the state it reports.
#[derive(Clone, Copy, PartialEq, Eq, Structural, Debug)]
pub enum Verdict {
    /// Structural, with no setting and no flag that changes it.
    Guaranteed,
    /// True on this machine, and the safe answer.
    Safe,
    /// True on this machine, and something the reader should know about.
    Widened,
    /// A fact worth printing.
    Neutral,
}

/// The glyph in front of a row.
pub open spec fn mark_of(v: Verdict) -> Seq<char> {
    match v {
        Verdict::Guaranteed | Verdict::Safe => "+"@,
        Verdict::Widened => "!"@,
        Verdict::Neutral => " "@,
    }
}

/// The word `--json` uses for a verdict.
pub open spec fn key_of(v: Verdict) -> Seq<char> {
    match v {
        Verdict::Guaranteed => "guaranteed"@,
        Verdict::Safe => "safe"@,
        Verdict::Widened => "widened"@,
        Verdict::Neutral => "neutral"@,
    }
}

impl Verdict {
    /// The glyph in front of the row.
    pub fn mark(self) -> (r: &'static str)
        ensures
            r@ == mark_of(self),
    {
        match self {
            Verdict::Guaranteed | Verdict::Safe => "+",
            Verdict::Widened => "!",
            Verdict::Neutral => " ",
        }
    }

    /// The word `--json` uses, separate from the prose so rewording a row never breaks
    /// a script reading the document.
    pub fn key(self) -> (r: &'static str)
        ensures
            r@ == key_of(self),
    {
        match self {
            Verdict::Guaranteed => "guaranteed",
            Verdict::Safe => "safe",
            Verdict::Widened => "widened",
            Verdict::Neutral => "neutral",
        }
    }
}

/// One line of the report.
pub struct TrustRow {
    /// Stable identifier for `--json`.
    pub key: &'static str,
    /// What is being reported.
    pub subject: &'static str,
    /// The state it is in, in the user's terms.
    pub state: String,
    /// How to read that state.
    pub verdict: Verdict,
}

impl TrustRow {
    /// A row.
    pub fn new(key: &'static str, subject: &'static str, state: String, verdict: Verdict) -> (r: Self)
        ensures
            r.key == key,
            r.subject == subject,
            r.state == state,
            r.verdict == verdict,
    {
        TrustRow { key, subject, state, verdict }
    }

    /// The `--json` word for this row's verdict.
    pub fn verdict_key(&self) -> (r: &'static str)
        ensures
            r@ == key_of(self.verdict),
    {
        self.verdict.key()
    }
}

/// One executable the tool owns on this machine, and the digest a scanner sees.
pub struct BinaryIdentity {
    /// What this executable is for: `managed`, `alias`, and so on.
    pub role: &'static str,
    /// The file name.
    pub name: String,
    /// Where it is.
    pub path: String,
    /// Lower-case hex SHA-256, or `None` when the file could not be read.
    pub sha256: Option<String>,
    /// Whether this is the executable answering right now.
    pub running: bool,
    /// Why this one's digest differs from the others, when it does.
    pub note: Option<&'static str>,
}

/// The scan report address for a digest.
pub open spec fn scan_url_of(sha: Option<Seq<char>>) -> Option<Seq<char>> {
    match sha {
        Some(h) => Some(VIRUSTOTAL_FILE_BASE@ + "/"@ + h),
        None => None,
    }
}

impl BinaryIdentity {
    /// The scan report for this file's digest, if it could be hashed.
    pub fn scan_url(&self) -> (r: Option<String>)
        ensures
            text::opt_view(r) == scan_url_of(text::opt_view(self.sha256)),
    {
        match &self.sha256 {
            Some(h) => {
                let mut v: Vec<char> = Vec::new();
                text::push_str(&mut v, VIRUSTOTAL_FILE_BASE);
                text::push_str(&mut v, "/");
                text::push_str(&mut v, h.as_str());
                Some(text::string_of(&v))
            },
            None => None,
        }
    }
}

/// The whole report.
pub struct TrustReport {
    /// Structural guarantees, identical on every machine.
    pub guarantees: Vec<TrustRow>,
    /// Live state, read from the registry and the OS.
    pub machine: Vec<TrustRow>,
    /// Every executable the tool owns here, the running one first.
    pub binaries: Vec<BinaryIdentity>,
}

/// The subjects of the rows that widen what the tool may do, in order.
pub open spec fn widened_subjects(rows: Seq<TrustRow>) -> Seq<Seq<char>>
    decreases rows.len(),
{
    if rows.len() == 0 {
        seq![]
    } else {
        let rest = widened_subjects(rows.drop_last());
        if rows.last().verdict == Verdict::Widened {
            rest.push(rows.last().subject@)
        } else {
            rest
        }
    }
}

/// The views of a list of static strings.
pub open spec fn strs_view(v: Seq<&'static str>) -> Seq<Seq<char>> {
    v.map_values(|s: &'static str| s@)
}

impl TrustReport {
    /// Every setting on this machine that widens what the tool may do without asking:
    /// a list of names rather than a score, because only the names can be acted on.
    pub fn widened(&self) -> (r: Vec<&'static str>)
        ensures
            strs_view(r@) == widened_subjects(self.machine@),
            strs_view(r@) == widened_in(rows_view(self.machine@)),
    {
        proof {
            lemma_widened_in(self.machine@);
        }
        let ghost rows = self.machine@;
        let mut out: Vec<&'static str> = Vec::new();
        let mut i: usize = 0;
        while i < self.machine.len()
            invariant
                i <= self.machine.len(),
                rows == self.machine@,
                strs_view(out@) == widened_subjects(rows.take(i as int)),
            decreases self.machine.len() - i,
        {
            assert(rows.take(i + 1).drop_last() == rows.take(i as int));
            assert(rows.take(i + 1).last() == self.machine@[i as int]);
            if self.machine[i].verdict == Verdict::Widened {
                let ghost before = out@;
                out.push(self.machine[i].subject);
                assert(strs_view(out@) =~= strs_view(before).push(self.machine@[i as int].subject@));
            }
            i = i + 1;
        }
        assert(rows.take(i as int) == rows);
        out
    }
}

/// The index of the first binary with the given role.
pub open spec fn role_index(rows: Seq<BinaryIdentity>, role: Seq<char>, i: int) -> Option<int>
    decreases rows.len() - i,
{
    if i < 0 || i >= rows.len() {
        None
    } else if rows[i].role@ == role {
        Some(i)
    } else {
        role_index(rows, role, i + 1)
    }
}

/// The note the alias row earns from the two digests: the same bytes, an earlier
/// release, or nothing when either could not be hashed.
pub open spec fn alias_note(managed: Option<Seq<char>>, alias: Option<Seq<char>>) -> Option<Seq<char>> {
    match (managed, alias) {
        (Some(m), Some(a)) => if m == a {
            Some(SAME_BYTES_NOTE@)
        } else {
            Some(EARLIER_RELEASE_NOTE@)
        },
        _ => None,
    }
}

proof fn lemma_role_index(rows: Seq<BinaryIdentity>, role: Seq<char>, i: int)
    requires
        0 <= i,
    ensures
        role_index(rows, role, i) matches Some(j) ==> i <= j < rows.len() && rows[j].role@ == role,
    decreases rows.len() - i,
{
    if i < rows.len() && rows[i].role@ != role {
        lemma_role_index(rows, role, i + 1);
    }
}

fn find_role(rows: &Vec<BinaryIdentity>, role: &str) -> (r: Option<usize>)
    ensures
        match r {
            Some(i) => role_index(rows@, role@, 0) == Some(i as int) && i < rows@.len(),
            None => role_index(rows@, role@, 0) is None,
        },
{
    proof {
        lemma_role_index(rows@, role@, 0);
    }
    let mut i: usize = 0;
    while i < rows.len()
        invariant
            i <= rows.len(),
            role_index(rows@, role@, 0) == role_index(rows@, role@, i as int),
        decreases rows.len() - i,
    {
        let r = text::chars_of(rows[i].role);
        if text::chars_eq_str(&r, role) {
            return Some(i);
        }
        i = i + 1;
    }
    None
}

/// Explain the alias row from the two digests rather than from what ought to be
/// true: the first `alias` row's note becomes [`alias_note`] of the first `managed`
/// row's digest and its own; nothing else changes.
pub fn annotate_alias(rows: &mut Vec<BinaryIdentity>)
    ensures
        final(rows)@.len() == old(rows)@.len(),
        match role_index(old(rows)@, "alias"@, 0) {
            Some(a) => 0 <= a < old(rows)@.len() && {
                let managed = match role_index(old(rows)@, "managed"@, 0) {
                    Some(m) => text::opt_view(old(rows)@[m].sha256),
                    None => None,
                };
                &&& (match final(rows)@[a].note {
                    Some(n) => Some(n@),
                    None => None,
                }) == alias_note(managed, text::opt_view(old(rows)@[a].sha256))
                &&& final(rows)@[a].role == old(rows)@[a].role
                &&& final(rows)@[a].sha256 == old(rows)@[a].sha256
                &&& final(rows)@[a].name == old(rows)@[a].name
                &&& final(rows)@[a].path == old(rows)@[a].path
                &&& final(rows)@[a].running == old(rows)@[a].running
                &&& forall|k: int| 0 <= k < old(rows)@.len() && k != a ==> final(rows)@[k] == old(rows)@[k]
            },
            None => final(rows)@ == old(rows)@,
        },
{
    let managed: Option<String> = match find_role(rows, "managed") {
        Some(m) => match &rows[m].sha256 {
            Some(h) => Some(h.clone()),
            None => None,
        },
        None => None,
    };
    let a = match find_role(rows, "alias") {
        Some(a) => a,
        None => return,
    };
    let note: Option<&'static str> = match (&managed, &rows[a].sha256) {
        (Some(m), Some(mine)) => {
            let mv = text::chars_of(m.as_str());
            let yv = text::chars_of(mine.as_str());
            if text::chars_eq(&mv, &yv) {
                Some(SAME_BYTES_NOTE)
            } else {
                Some(EARLIER_RELEASE_NOTE)
            }
        },
        _ => None,
    };
    let mut row = rows.remove(a);
    row.note = note;
    rows.insert(a, row);
}

/// A path in the spelling Git uses for `safe.directory`: forward slashes, the form Git
/// compares against even on Windows.
pub open spec fn git_path_text(path: Seq<char>) -> Seq<char> {
    text::replace_all(path, "\\"@, "/"@)
}

/// A path in the spelling Git uses for `safe.directory`.
pub fn git_path_value(path: &str) -> (r: String)
    ensures
        r@ == git_path_text(path@),
{
    proof {
        reveal_strlit("\\");
    }
    let p = text::chars_of(path);
    let r = text::replace_str(&p, "\\", "/");
    text::string_of(&r)
}

/// The opt-in adapters switched on, in the order the report names them.
pub open spec fn opt_in_list(flags: Seq<bool>) -> Seq<Seq<char>> {
    let names = seq!["cargo"@, "gradle"@, "maven"@, "swift"@, "dart"@, "mix_build"@, "vcpkg"@, "cmake_build"@];
    opt_in_prefix(names, flags, 8)
}

/// The names among the first `n` whose flag is on.
pub open spec fn opt_in_prefix(names: Seq<Seq<char>>, flags: Seq<bool>, n: int) -> Seq<Seq<char>>
    decreases n,
{
    if n <= 0 {
        seq![]
    } else if flags[n - 1] {
        opt_in_prefix(names, flags, n - 1).push(names[n - 1])
    } else {
        opt_in_prefix(names, flags, n - 1)
    }
}

/// The eight `enable_*` settings, in the order the report names the adapters.
pub open spec fn opt_in_flags(s: config::Settings) -> Seq<bool> {
    seq![
        s.enable_cargo,
        s.enable_gradle,
        s.enable_maven,
        s.enable_swift,
        s.enable_dart,
        s.enable_mix_build,
        s.enable_vcpkg,
        s.enable_cmake_build,
    ]
}

/// Which opt-in adapters are switched on, in the order the report names them: cargo,
/// gradle, maven, swift, dart, mix_build, vcpkg, cmake_build.
pub fn opt_in_adapters(registry: &config::Registry) -> (r: Vec<&'static str>)
    ensures
        strs_view(r@) == opt_in_list(opt_in_flags(registry@.settings)),
{
    let st = &registry.settings;
    let enabled: [bool; 8] = [
        st.enable_cargo,
        st.enable_gradle,
        st.enable_maven,
        st.enable_swift,
        st.enable_dart,
        st.enable_mix_build,
        st.enable_vcpkg,
        st.enable_cmake_build,
    ];
    assert(enabled@ =~= opt_in_flags(registry@.settings));
    let names: [&'static str; 8] = ["cargo", "gradle", "maven", "swift", "dart", "mix_build", "vcpkg", "cmake_build"];
    let ghost ns = seq!["cargo"@, "gradle"@, "maven"@, "swift"@, "dart"@, "mix_build"@, "vcpkg"@, "cmake_build"@];
    assert(names@.map_values(|s: &'static str| s@) =~= ns);
    let mut out: Vec<&'static str> = Vec::new();
    let mut i: usize = 0;
    while i < 8
        invariant
            i <= 8,
            names@.map_values(|s: &'static str| s@) == ns,
            strs_view(out@) == opt_in_prefix(ns, enabled@, i as int),
        decreases 8 - i,
    {
        if enabled[i] {
            let ghost before = out@;
            out.push(names[i]);
            assert(names@[i as int]@ == ns[i as int]);
            assert(strs_view(out@) =~= strs_view(before).push(ns[i as int]));
        }
        i = i + 1;
    }
    out
}

/// Why the windowless twin's digest differs from the pair's.
pub const WINDOWLESS_NOTE: &'static str = "A different digest by design — the same code linked for the GUI subsystem, so the scheduler flashes no console window.";

/// The executables worth hashing, in the order they are considered, each with its
/// role and fixed note: the managed binary, its alias beside it, on Windows the
/// windowless twin, and whatever is running (which may be none of those; duplicates
/// are dropped later, keeping the first). `managed` is the managed binary and the
/// directory it is in.
pub open spec fn binary_paths_of(
    managed: Option<(Seq<char>, Seq<char>)>,
    running: Option<Seq<char>>,
    windows: bool,
) -> Seq<(Seq<char>, Seq<char>, Option<Seq<char>>)> {
    let pair = match managed {
        Some((exe, dir)) => {
            let alias = config::joined(dir, if windows { "devp.exe"@ } else { "devp"@ }, windows);
            let base = seq![(exe, "managed"@, None::<Seq<char>>), (alias, "alias"@, None::<Seq<char>>)];
            if windows {
                base.push((config::joined(dir, "devpw.exe"@, windows), "windowless"@, Some(WINDOWLESS_NOTE@)))
            } else {
                base
            }
        },
        None => seq![],
    };
    match running {
        Some(p) => pair.push((p, "other"@, None)),
        None => pair,
    }
}

/// The abstract value of a list of found executables.
pub open spec fn found_view(v: Seq<(String, &'static str, Option<&'static str>)>) -> Seq<(Seq<char>, Seq<char>, Option<Seq<char>>)> {
    v.map_values(|x: (String, &'static str, Option<&'static str>)| (x.0@, x.1@, match x.2 {
        Some(n) => Some(n@),
        None => None,
    }))
}

/// The executables worth hashing, in order, with their roles and notes.
pub fn binary_paths(managed: Option<(&str, &str)>, running: Option<&str>, windows: bool) -> (r: Vec<(String, &'static str, Option<&'static str>)>)
    ensures
        found_view(r@) == binary_paths_of(
            match managed {
                Some((e, d)) => Some((e@, d@)),
                None => None,
            },
            match running {
                Some(p) => Some(p@),
                None => None,
            },
            windows,
        ),
{
    let mut out: Vec<(String, &'static str, Option<&'static str>)> = Vec::new();
    if let Some((exe, dir)) = managed {
        out.push((text::owned(exe), "managed", None));
        out.push((config::join_path(dir, if windows { "devp.exe" } else { "devp" }, windows), "alias", None));
        if windows {
            out.push((config::join_path(dir, "devpw.exe", windows), "windowless", Some(WINDOWLESS_NOTE)));
        }
    }
    let ghost before = found_view(out@);
    if let Some(p) = running {
        out.push((text::owned(p), "other", None));
        assert(found_view(out@) =~= before.push((p@, "other"@, None)));
    }
    proof {
        let m = match managed {
            Some((e, d)) => Some((e@, d@)),
            None => None::<(Seq<char>, Seq<char>)>,
        };
        match managed {
            Some((exe, dir)) => {
                let alias = config::joined(dir@, if windows { "devp.exe"@ } else { "devp"@ }, windows);
                let base = seq![(exe@, "managed"@, None::<Seq<char>>), (alias, "alias"@, None::<Seq<char>>)];
                if windows {
                    assert(before =~= base.push((config::joined(dir@, "devpw.exe"@, windows), "windowless"@, Some(WINDOWLESS_NOTE@))));
                } else {
                    assert(before =~= base);
                }
            },
            None => {
                assert(before =~= Seq::<(Seq<char>, Seq<char>, Option<Seq<char>>)>::empty());
            },
        }
    }
    out
}

/// The rows with the running executable first and the rest after it, each part in its
/// own order: the user asked which one they are running.
pub open spec fn running_first_of(rows: Seq<BinaryIdentity>) -> Seq<BinaryIdentity> {
    rows.filter(|b: BinaryIdentity| b.running) + rows.filter(|b: BinaryIdentity| !b.running)
}

/// Put the running executable first, keeping the order otherwise.
pub fn running_first(rows: Vec<BinaryIdentity>) -> (r: Vec<BinaryIdentity>)
    ensures
        r@ == running_first_of(rows@),
{
    let ghost all = rows@;
    let mut first: Vec<BinaryIdentity> = Vec::new();
    let mut rest: Vec<BinaryIdentity> = Vec::new();
    let mut src = rows;
    let n = src.len();
    let mut i: usize = 0;
    while i < n
        invariant
            i <= n,
            n == all.len(),
            src@ == all.skip(i as int),
            first@ == all.take(i as int).filter(|b: BinaryIdentity| b.running),
            rest@ == all.take(i as int).filter(|b: BinaryIdentity| !b.running),
        decreases n - i,
    {
        assert(all.take(i + 1).drop_last() == all.take(i as int));
        assert(all.take(i + 1).last() == all[i as int]);
        reveal(Seq::filter);
        let b = src.remove(0);
        assert(src@ =~= all.skip(i + 1));
        if b.running {
            first.push(b);
        } else {
            rest.push(b);
        }
        i = i + 1;
    }
    assert(all.take(n as int) == all);
    let mut out = first;
    out.append(&mut rest);
    out
}

// ---------------------------------------------------------------------------------
// The report's rows
// ---------------------------------------------------------------------------------

/// The abstract value of a row: key, subject, state and verdict.
pub open spec fn row_view(r: TrustRow) -> (Seq<char>, Seq<char>, Seq<char>, Verdict) {
    (r.key@, r.subject@, r.state@, r.verdict)
}

/// The abstract value of a list of rows.
pub open spec fn rows_view(rows: Seq<TrustRow>) -> Seq<(Seq<char>, Seq<char>, Seq<char>, Verdict)> {
    rows.map_values(|r: TrustRow| row_view(r))
}

/// A structural guarantee: no setting and no flag changes it.
pub open spec fn guaranteed(key: Seq<char>, subject: Seq<char>, state: Seq<char>) -> (Seq<char>, Seq<char>, Seq<char>, Verdict) {
    (key, subject, state, Verdict::Guaranteed)
}

/// The seven safety invariants and the three promises asked about as often: no
/// telemetry, build outputs never touched, container disk never touched.
pub open spec fn guarantee_rows() -> Seq<(Seq<char>, Seq<char>, Seq<char>, Verdict)> {
    seq![
        guaranteed("filesystem_scope"@, "Filesystem scope"@, "Registered Git repositories only"@),
        guaranteed("lockfile_verification"@, "Lockfile verification"@, "Required before every delete"@),
        guaranteed("symlinks"@, "Symlinks and junctions"@, "Refused"@),
        guaranteed("nested_repositories"@, "Nested repositories"@, "Refused — no lockfile rebuilds someone else's history"@),
        guaranteed("build_outputs"@, "Build outputs"@, "Never deleted — no dist/, no .next/, no .gitignore rules"@),
        guaranteed("container_disk"@, "Container disk"@, "Reported, never deleted — `devp caches docker` prints the commands"@),
        guaranteed("deletion_bypass"@, "Deletion bypass"@, "None — no flag disables a safety check"@),
        guaranteed("state_writes"@, "State writes"@, "Atomic — temp file, then rename"@),
        guaranteed("telemetry"@, "Telemetry"@, "None — there is no endpoint"@),
        guaranteed("restore"@, "Restore"@, "`devp restore --last-run` rebuilds the last pass"@),
    ]
}

fn push_row(rows: &mut Vec<TrustRow>, key: &'static str, subject: &'static str, state: String, verdict: Verdict)
    ensures
        rows_view(final(rows)@) == rows_view(old(rows)@).push((key@, subject@, state@, verdict)),
{
    let ghost before = rows_view(rows@);
    rows.push(TrustRow::new(key, subject, state, verdict));
    assert(rows_view(rows@) =~= before.push((key@, subject@, state@, verdict)));
}

/// The structural guarantees, identical on every machine.
pub fn guarantees() -> (r: Vec<TrustRow>)
    ensures
        rows_view(r@) == guarantee_rows(),
{
    let mut rows: Vec<TrustRow> = Vec::new();
    let g = Verdict::Guaranteed;
    push_row(&mut rows, "filesystem_scope", "Filesystem scope", text::owned("Registered Git repositories only"), g);
    push_row(&mut rows, "lockfile_verification", "Lockfile verification", text::owned("Required before every delete"), g);
    push_row(&mut rows, "symlinks", "Symlinks and junctions", text::owned("Refused"), g);
    push_row(&mut rows, "nested_repositories", "Nested repositories", text::owned("Refused — no lockfile rebuilds someone else's history"), g);
    push_row(&mut rows, "build_outputs", "Build outputs", text::owned("Never deleted — no dist/, no .next/, no .gitignore rules"), g);
    push_row(&mut rows, "container_disk", "Container disk", text::owned("Reported, never deleted — `devp caches docker` prints the commands"), g);
    push_row(&mut rows, "deletion_bypass", "Deletion bypass", text::owned("None — no flag disables a safety check"), g);
    push_row(&mut rows, "state_writes", "State writes", text::owned("Atomic — temp file, then rename"), g);
    push_row(&mut rows, "telemetry", "Telemetry", text::owned("None — there is no endpoint"), g);
    push_row(&mut rows, "restore", "Restore", text::owned("`devp restore --last-run` rebuilds the last pass"), g);
    assert(rows_view(rows@) =~= guarantee_rows());
    rows
}

/// The network row's state.
pub open spec fn network_text(s: config::Settings) -> Seq<char> {
    if s.update_check {
        "Release check against GitHub, every "@ + text::signed_decimal(s.update_check_interval_days as int) + " days"@
    } else {
        "None — the release check is off"@
    }
}

/// The auto-update row's state: the pin answers the question outright.
pub open spec fn auto_update_text(s: config::Settings) -> Seq<char> {
    if s.version_lock {
        "Off — `version_lock` pins this copy to the version it is"@
    } else if s.auto_update {
        "On (the default) — a newer release installs itself after a pass"@
    } else {
        "Off — updates only when you run `devp update --install`"@
    }
}

/// The opt-in adapters row's state.
pub open spec fn opt_in_text(names: Seq<Seq<char>>) -> Seq<char> {
    if names.len() == 0 {
        "None — only dependency directories are deletable"@
    } else {
        engine::joined_with(names, ", "@) + " — build trees are deletable too"@
    }
}

/// The idle window row's state: the repository window and the longer one build trees
/// wait for.
pub open spec fn idle_text(s: config::Settings) -> Seq<char> {
    let build = if s.build_idle_days >= s.idle_days { s.build_idle_days } else { s.idle_days };
    text::decimal(s.idle_days as nat) + " days of no commits and no file changes ("@ + text::decimal(build as nat)
        + " for build trees, before any per-adapter window)"@
}

/// Everything read back from this machine: `scheduler`, `hooks` and `binary` are the
/// scheduler's state, the hooks' state and the managed binary's path as the caller
/// read them.
pub open spec fn machine_rows(
    r: config::RegistryView,
    scheduler: Seq<char>,
    hooks: Seq<char>,
    binary: Seq<char>,
) -> Seq<(Seq<char>, Seq<char>, Seq<char>, Verdict)> {
    let s = r.settings;
    let opt_in = opt_in_list(opt_in_flags(s));
    seq![
        ("network"@, "Network requests"@, network_text(s), Verdict::Safe),
        ("auto_update"@, "Auto-update"@, auto_update_text(s), if s.auto_update && !s.version_lock {
            Verdict::Neutral
        } else {
            Verdict::Safe
        }),
        ("confirmation"@, "Confirmation before deleting"@, if s.require_confirmation {
            "Required, except where you pass `--yes`"@
        } else {
            "Off — `require_confirmation` is false"@
        }, if s.require_confirmation {
            Verdict::Safe
        } else {
            Verdict::Widened
        }),
        ("lockfile_rewrite"@, "Lockfile rewriting"@, if s.allow_manifest_rewrite {
            "Allowed — a stale lockfile is regenerated instead of refused"@
        } else {
            "Refused — verification is read-only"@
        }, if s.allow_manifest_rewrite {
            Verdict::Widened
        } else {
            Verdict::Safe
        }),
        ("scheduler"@, "Background scheduler"@, scheduler, Verdict::Neutral),
        ("git_hooks"@, "Git hooks"@, hooks, Verdict::Neutral),
        ("opt_in_adapters"@, "Opt-in adapters"@, opt_in_text(opt_in), if opt_in.len() == 0 {
            Verdict::Safe
        } else {
            Verdict::Widened
        }),
        ("repositories"@, "Registered repositories"@, text::decimal(r.repositories.len())
            + " — nothing outside them is ever read or written"@, Verdict::Neutral),
        ("idle_window"@, "Idle window"@, idle_text(s), Verdict::Neutral),
        ("binary"@, "Managed binary"@, binary, Verdict::Neutral),
    ]
}

fn joined_names(names: &Vec<&'static str>) -> (r: Vec<char>)
    ensures
        r@ == engine::joined_with(strs_view(names@), ", "@),
{
    let mut owned: Vec<String> = Vec::new();
    let mut i: usize = 0;
    while i < names.len()
        invariant
            i <= names@.len(),
            text::views(owned@) == strs_view(names@).take(i as int),
        decreases names@.len() - i,
    {
        let ghost before = text::views(owned@);
        owned.push(text::owned(names[i]));
        assert(strs_view(names@)[i as int] == names@[i as int]@);
        assert(text::views(owned@) =~= before.push(names@[i as int]@));
        assert(text::views(owned@) =~= strs_view(names@).take(i + 1));
        i = i + 1;
    }
    assert(strs_view(names@).take(i as int) == strs_view(names@));
    engine::join_with(&owned, ", ")
}

/// The rows read back from this machine rather than asserted.
pub fn machine_state(registry: &config::Registry, scheduler: String, hooks: String, binary: String) -> (r: Vec<TrustRow>)
    requires
        registry.wf(),
    ensures
        rows_view(r@) == machine_rows(registry@, scheduler@, hooks@, binary@),
{
    let s = &registry.settings;
    let mut rows: Vec<TrustRow> = Vec::new();

    let network = if s.update_check {
        let mut v: Vec<char> = Vec::new();
        text::push_str(&mut v, "Release check against GitHub, every ");
        let d = text::signed_decimal_chars(s.update_check_interval_days);
        text::push_all(&mut v, &d);
        text::push_str(&mut v, " days");
        text::string_of(&v)
    } else {
        text::owned("None — the release check is off")
    };
    push_row(&mut rows, "network", "Network requests", network, Verdict::Safe);

    let auto = if s.version_lock {
        "Off — `version_lock` pins this copy to the version it is"
    } else if s.auto_update {
        "On (the default) — a newer release installs itself after a pass"
    } else {
        "Off — updates only when you run `devp update --install`"
    };
    push_row(&mut rows, "auto_update", "Auto-update", text::owned(auto), if s.auto_update && !s.version_lock {
        Verdict::Neutral
    } else {
        Verdict::Safe
    });

    if s.require_confirmation {
        push_row(&mut rows, "confirmation", "Confirmation before deleting", text::owned("Required, except where you pass `--yes`"), Verdict::Safe);
    } else {
        push_row(&mut rows, "confirmation", "Confirmation before deleting", text::owned("Off — `require_confirmation` is false"), Verdict::Widened);
    }

    if s.allow_manifest_rewrite {
        push_row(&mut rows, "lockfile_rewrite", "Lockfile rewriting", text::owned("Allowed — a stale lockfile is regenerated instead of refused"), Verdict::Widened);
    } else {
        push_row(&mut rows, "lockfile_rewrite", "Lockfile rewriting", text::owned("Refused — verification is read-only"), Verdict::Safe);
    }

    push_row(&mut rows, "scheduler", "Background scheduler", scheduler, Verdict::Neutral);
    push_row(&mut rows, "git_hooks", "Git hooks", hooks, Verdict::Neutral);

    let opt_in = opt_in_adapters(registry);
    if opt_in.len() == 0 {
        push_row(&mut rows, "opt_in_adapters", "Opt-in adapters", text::owned("None — only dependency directories are deletable"), Verdict::Safe);
    } else {
        let mut v = joined_names(&opt_in);
        text::push_str(&mut v, " — build trees are deletable too");
        push_row(&mut rows, "opt_in_adapters", "Opt-in adapters", text::string_of(&v), Verdict::Widened);
    }

    let mut v = text::decimal_chars(registry.repositories.len() as u64);
    text::push_str(&mut v, " — nothing outside them is ever read or written");
    push_row(&mut rows, "repositories", "Registered repositories", text::string_of(&v), Verdict::Neutral);

    let build = if s.build_idle_days >= s.idle_days { s.build_idle_days } else { s.idle_days };
    let mut w = text::decimal_chars(s.idle_days);
    text::push_str(&mut w, " days of no commits and no file changes (");
    let b = text::decimal_chars(build);
    text::push_all(&mut w, &b);
    text::push_str(&mut w, " for build trees, before any per-adapter window)");
    push_row(&mut rows, "idle_window", "Idle window", text::string_of(&w), Verdict::Neutral);

    push_row(&mut rows, "binary", "Managed binary", binary, Verdict::Neutral);
    assert(rows_view(rows@) =~= machine_rows(registry@, scheduler@, hooks@, binary@));
    rows
}

/// The report without the executables: hashing them costs more than every other row
/// together, so the command fills them in afterwards and this leaves them empty.
pub fn build(registry: &config::Registry, scheduler: String, hooks: String, binary: String) -> (r: TrustReport)
    requires
        registry.wf(),
    ensures
        rows_view(r.guarantees@) == guarantee_rows(),
        rows_view(r.machine@) == machine_rows(registry@, scheduler@, hooks@, binary@),
        r.binaries@.len() == 0,
{
    TrustReport {
        guarantees: guarantees(),
        machine: machine_state(registry, scheduler, hooks, binary),
        binaries: Vec::new(),
    }
}

/// Whether anything prunes on its own on this machine, from the scheduler's status or
/// the error asking for it gave.
pub open spec fn scheduler_text(status: Result<DaemonStatus, String>) -> Seq<char> {
    match status {
        Ok(DaemonStatus::Installed) => "Installed — prunes on its own"@,
        Ok(DaemonStatus::NotInstalled) => "Not installed — nothing runs unless you run it"@,
        Ok(DaemonStatus::Unknown(why)) => "Unknown ("@ + why@ + ")"@,
        Err(e) => "Unknown ("@ + e@ + ")"@,
    }
}

/// Whether anything prunes on its own on this machine.
pub fn scheduler_state(status: Result<DaemonStatus, String>) -> (r: String)
    ensures
        r@ == scheduler_text(status),
{
    match status {
        Ok(DaemonStatus::Installed) => text::owned("Installed — prunes on its own"),
        Ok(DaemonStatus::NotInstalled) => text::owned("Not installed — nothing runs unless you run it"),
        Ok(DaemonStatus::Unknown(why)) => unknown_because(why.as_str()),
        Err(e) => unknown_because(e.as_str()),
    }
}

fn unknown_because(why: &str) -> (r: String)
    ensures
        r@ == "Unknown ("@ + why@ + ")"@,
{
    let mut v: Vec<char> = Vec::new();
    text::push_str(&mut v, "Unknown (");
    text::push_str(&mut v, why);
    text::push_str(&mut v, ")");
    text::string_of(&v)
}

/// The closing line of the report: that nothing widens what the tool may do, or how
/// many settings do and which.
pub open spec fn widened_summary_text(names: Seq<Seq<char>>) -> Seq<char> {
    if names.len() == 0 {
        "Nothing on this machine widens what dev-prune may do without asking."@
    } else {
        text::decimal(names.len()) + if names.len() == 1 {
            " setting widens"@
        } else {
            " settings widen"@
        } + " what dev-prune may do without asking: "@ + engine::joined_with(names, ", "@)
            + ". Each was switched on deliberately; `devp config show` has them."@
    }
}

/// The closing line of the report, from [`TrustReport::widened`].
pub fn widened_summary(widened: &Vec<&'static str>) -> (r: String)
    ensures
        r@ == widened_summary_text(strs_view(widened@)),
{
    if widened.len() == 0 {
        return text::owned("Nothing on this machine widens what dev-prune may do without asking.");
    }
    let mut v = text::decimal_chars(widened.len() as u64);
    text::push_str(&mut v, if widened.len() == 1 { " setting widens" } else { " settings widen" });
    text::push_str(&mut v, " what dev-prune may do without asking: ");
    let j = joined_names(widened);
    text::push_all(&mut v, &j);
    text::push_str(&mut v, ". Each was switched on deliberately; `devp config show` has them.");
    text::string_of(&v)
}

// ---------------------------------------------------------------------------------
// Repositories Git refuses to read
// ---------------------------------------------------------------------------------

/// The phrase Git uses when it refuses a repository on ownership.
pub const GIT_DUBIOUS_OWNERSHIP: &'static str = "detected dubious ownership";

/// Whether a failed `git rev-parse --git-dir` refused the repository on ownership: its
/// error output, decoded and lower-cased, names dubious ownership.
pub open spec fn refused_on_ownership(stderr: Seq<u8>) -> bool {
    text::contains(text::lowercase(text::utf8_lossy(stderr)), GIT_DUBIOUS_OWNERSHIP@)
}

/// Whether a failed `git rev-parse --git-dir` refused the repository on ownership.
pub fn is_dubious_ownership(stderr: &[u8]) -> (r: bool)
    ensures
        r == refused_on_ownership(stderr@),
{
    let decoded = text::from_utf8_lossy(stderr);
    let lower = text::to_lowercase(decoded.as_str());
    let l = text::chars_of(lower.as_str());
    text::contains_str(&l, GIT_DUBIOUS_OWNERSHIP)
}

/// The non-empty lines, trimmed, of a list of values printed one per line.
pub open spec fn listed_values(lines: Seq<Seq<char>>) -> Seq<Seq<char>>
    decreases lines.len(),
{
    if lines.len() == 0 {
        seq![]
    } else {
        let rest = listed_values(lines.drop_last());
        let t = text::trim(lines.last());
        if t.len() == 0 {
            rest
        } else {
            rest.push(t)
        }
    }
}

/// The values already in the global `safe.directory` list, from what
/// `git config --global --get-all safe.directory` printed: `None` when it failed,
/// which leads to the same behaviour as an empty list (`--add` on a duplicate is
/// untidy rather than harmful).
pub open spec fn safe_directories_of(stdout: Option<Seq<u8>>) -> Seq<Seq<char>> {
    match stdout {
        Some(b) => listed_values(text::lines(text::utf8_lossy(b))),
        None => seq![],
    }
}

/// The values already in the global `safe.directory` list.
pub fn safe_directories(stdout: Option<&[u8]>) -> (r: Vec<String>)
    ensures
        text::views(r@) == safe_directories_of(
            match stdout {
                Some(b) => Some(b@),
                None => None,
            },
        ),
{
    let bytes = match stdout {
        Some(b) => b,
        None => return Vec::new(),
    };
    let decoded = text::from_utf8_lossy(bytes);
    let chars = text::chars_of(decoded.as_str());
    let ls = text::lines_of(&chars);
    let ghost lv = text::seqs_of(ls@);
    let mut out: Vec<String> = Vec::new();
    let mut i: usize = 0;
    while i < ls.len()
        invariant
            i <= ls@.len(),
            lv == text::seqs_of(ls@),
            lv.len() == ls@.len(),
            text::views(out@) == listed_values(lv.take(i as int)),
        decreases ls@.len() - i,
    {
        assert(lv.take(i + 1).drop_last() == lv.take(i as int));
        assert(lv.take(i + 1).last() == ls@[i as int]@);
        let t = text::trim_chars(&ls[i]);
        if t.len() > 0 {
            let ghost before = text::views(out@);
            out.push(text::string_of(&t));
            assert(text::views(out@) =~= before.push(t@));
        }
        i = i + 1;
    }
    assert(lv.take(i as int) == lv);
    out
}

/// The `safe.directory` values to add for the affected repositories: each one's Git
/// spelling, unless the list already has it (`--add` does not deduplicate, so running
/// the fix twice would otherwise grow the user's config forever).
pub open spec fn values_to_add(affected: Seq<Seq<char>>, existing: Seq<Seq<char>>) -> Seq<Seq<char>>
    decreases affected.len(),
{
    if affected.len() == 0 {
        seq![]
    } else {
        let rest = values_to_add(affected.drop_last(), existing);
        let v = git_path_text(affected.last());
        if existing.contains(v) {
            rest
        } else {
            rest.push(v)
        }
    }
}

fn has_value(list: &Vec<String>, v: &str) -> (r: bool)
    ensures
        r == text::views(list@).contains(v@),
{
    let mut i: usize = 0;
    while i < list.len()
        invariant
            i <= list@.len(),
            forall|k: int| 0 <= k < i ==> list@[k]@ != v@,
        decreases list@.len() - i,
    {
        if text::str_eq(list[i].as_str(), v) {
            assert(text::views(list@)[i as int] == v@);
            return true;
        }
        i = i + 1;
    }
    assert(!text::views(list@).contains(v@)) by {
        if text::views(list@).contains(v@) {
            let k = choose|k: int| 0 <= k < list@.len() && text::views(list@)[k] == v@;
            assert(list@[k]@ == v@);
        }
    }
    false
}

/// The `safe.directory` values to add for the affected repositories.
pub fn safe_directory_additions(affected: &Vec<String>, existing: &Vec<String>) -> (r: Vec<String>)
    ensures
        text::views(r@) == values_to_add(text::views(affected@), text::views(existing@)),
{
    let ghost av = text::views(affected@);
    let mut out: Vec<String> = Vec::new();
    let mut i: usize = 0;
    while i < affected.len()
        invariant
            i <= affected@.len(),
            av == text::views(affected@),
            text::views(out@) == values_to_add(av.take(i as int), text::views(existing@)),
        decreases affected@.len() - i,
    {
        assert(av.take(i + 1).drop_last() == av.take(i as int));
        assert(av.take(i + 1).last() == affected@[i as int]@);
        let v = git_path_value(affected[i].as_str());
        if !has_value(existing, v.as_str()) {
            let ghost before = text::views(out@);
            out.push(v);
            assert(text::views(out@) =~= before.push(git_path_text(affected@[i as int]@)));
        }
        i = i + 1;
    }
    assert(av.take(i as int) == av);
    out
}

/// `one` when `n` is one, `many` otherwise.
pub open spec fn plural(n: nat, one: Seq<char>, many: Seq<char>) -> Seq<char> {
    if n == 1 {
        one
    } else {
        many
    }
}

/// The heading over the repositories Git refuses.
pub open spec fn refused_heading_text(n: nat) -> Seq<char> {
    text::decimal(n) + " "@ + plural(n, "repository"@, "repositories"@) + " Git will not read"@
}

/// The heading over the repositories Git refuses.
pub fn refused_heading(n: u64) -> (r: String)
    ensures
        r@ == refused_heading_text(n as nat),
{
    let mut v = text::decimal_chars(n);
    text::push_str(&mut v, " ");
    text::push_str(&mut v, if n == 1 { "repository" } else { "repositories" });
    text::push_str(&mut v, " Git will not read");
    text::string_of(&v)
}

/// What the fix changes, said before it asks: the global list, for every tool.
pub open spec fn fix_explanation_text(n: nat) -> Seq<char> {
    "This adds "@ + plural(n, "this path"@, "these paths"@)
        + " to git's global `safe.directory` list, which tells Git to open "@ + plural(n, "it"@, "them"@)
        + " despite the owner recorded on disk. It affects every tool on this machine that uses Git, not only dev-prune."@
}

/// What the fix changes, said before it asks.
pub fn fix_explanation(n: u64) -> (r: String)
    ensures
        r@ == fix_explanation_text(n as nat),
{
    let mut v: Vec<char> = Vec::new();
    text::push_str(&mut v, "This adds ");
    text::push_str(&mut v, if n == 1 { "this path" } else { "these paths" });
    text::push_str(&mut v, " to git's global `safe.directory` list, which tells Git to open ");
    text::push_str(&mut v, if n == 1 { "it" } else { "them" });
    text::push_str(
        &mut v,
        " despite the owner recorded on disk. It affects every tool on this machine that uses Git, not only dev-prune.",
    );
    text::string_of(&v)
}

/// What the fix did.
pub open spec fn fix_done_text(added: nat) -> Seq<char> {
    "Added "@ + text::decimal(added) + " "@ + plural(added, "entry"@, "entries"@)
        + ". Run `devp run --dry-run` to see what is now examinable."@
}

/// What the fix did.
pub fn fix_done(added: u64) -> (r: String)
    ensures
        r@ == fix_done_text(added as nat),
{
    let mut v: Vec<char> = Vec::new();
    text::push_str(&mut v, "Added ");
    let d = text::decimal_chars(added);
    text::push_all(&mut v, &d);
    text::push_str(&mut v, " ");
    text::push_str(&mut v, if added == 1 { "entry" } else { "entries" });
    text::push_str(&mut v, ". Run `devp run --dry-run` to see what is now examinable.");
    text::string_of(&v)
}

// ---------------------------------------------------------------------------------
// Laws
// ---------------------------------------------------------------------------------

/// The subjects of the rows that widen what the tool may do, over abstract rows.
pub open spec fn widened_in(rows: Seq<(Seq<char>, Seq<char>, Seq<char>, Verdict)>) -> Seq<Seq<char>>
    decreases rows.len(),
{
    if rows.len() == 0 {
        seq![]
    } else {
        let rest = widened_in(rows.drop_last());
        if rows.last().3 == Verdict::Widened {
            rest.push(rows.last().1)
        } else {
            rest
        }
    }
}

/// What [`TrustReport::widened`] returns, read off the rows' abstract values.
pub proof fn lemma_widened_in(rows: Seq<TrustRow>)
    ensures
        widened_subjects(rows) == widened_in(rows_view(rows)),
    decreases rows.len(),
{
    if rows.len() > 0 {
        lemma_widened_in(rows.drop_last());
        assert(rows_view(rows).drop_last() =~= rows_view(rows.drop_last()));
    }
}

/// A machine with every default setting widens nothing: a fresh install reports no
/// setting that lets the tool do more without asking.
pub proof fn law_the_default_machine_widens_nothing(
    r: config::RegistryView,
    scheduler: Seq<char>,
    hooks: Seq<char>,
    binary: Seq<char>,
)
    requires
        config::is_default_settings(r.settings),
    ensures
        widened_in(machine_rows(r, scheduler, hooks, binary)).len() == 0,
{
    let rows = machine_rows(r, scheduler, hooks, binary);
    reveal_with_fuel(widened_in, 11);
    assert(opt_in_list(opt_in_flags(r.settings)).len() == 0) by {
        reveal_with_fuel(opt_in_prefix, 9);
    }
}

/// Every setting that widens what the tool may do shows up by name, and nothing else
/// does: confirmation switched off, lockfile rewriting allowed, and any opt-in adapter
/// switched on, in the report's order.
pub proof fn law_every_widening_setting_shows_up_by_name(
    r: config::RegistryView,
    scheduler: Seq<char>,
    hooks: Seq<char>,
    binary: Seq<char>,
)
    ensures
        widened_in(machine_rows(r, scheduler, hooks, binary)) == {
            let s = r.settings;
            let a: Seq<Seq<char>> = if !s.require_confirmation { seq!["Confirmation before deleting"@] } else { seq![] };
            let b: Seq<Seq<char>> = if s.allow_manifest_rewrite { seq!["Lockfile rewriting"@] } else { seq![] };
            let c: Seq<Seq<char>> = if opt_in_list(opt_in_flags(s)).len() > 0 { seq!["Opt-in adapters"@] } else { seq![] };
            a + b + c
        },
{
    let rows = machine_rows(r, scheduler, hooks, binary);
    reveal_with_fuel(widened_in, 11);
    let s = r.settings;
    let a: Seq<Seq<char>> = if !s.require_confirmation { seq!["Confirmation before deleting"@] } else { seq![] };
    let b: Seq<Seq<char>> = if s.allow_manifest_rewrite { seq!["Lockfile rewriting"@] } else { seq![] };
    let c: Seq<Seq<char>> = if opt_in_list(opt_in_flags(s)).len() > 0 { seq!["Opt-in adapters"@] } else { seq![] };
    assert(widened_in(rows.take(4)) =~= a + b) by {
        assert(rows.take(4).drop_last() =~= rows.take(3));
        assert(rows.take(3).drop_last() =~= rows.take(2));
        assert(rows.take(2).drop_last() =~= rows.take(1));
        assert(rows.take(1).drop_last() =~= rows.take(0));
    }
    assert(rows.take(7).drop_last() =~= rows.take(6));
    assert(rows.take(6).drop_last() =~= rows.take(5));
    assert(rows.take(5).drop_last() =~= rows.take(4));
    assert(rows.drop_last() =~= rows.take(9));
    assert(rows.take(9).drop_last() =~= rows.take(8));
    assert(rows.take(8).drop_last() =~= rows.take(7));
    assert(widened_in(rows) =~= a + b + c);
}

/// The keys of every row the report prints, guarantees first.
pub open spec fn report_keys(r: config::RegistryView, scheduler: Seq<char>, hooks: Seq<char>, binary: Seq<char>) -> Seq<Seq<char>> {
    (guarantee_rows() + machine_rows(r, scheduler, hooks, binary)).map_values(
        |x: (Seq<char>, Seq<char>, Seq<char>, Verdict)| x.0,
    )
}

/// No two rows of the report share a key: the keys are the `--json` contract, and a
/// shared one would drop a fact from the document.
pub proof fn law_every_row_key_is_unique(r: config::RegistryView, scheduler: Seq<char>, hooks: Seq<char>, binary: Seq<char>)
    ensures
        report_keys(r, scheduler, hooks, binary).no_duplicates(),
{
    reveal_strlit("filesystem_scope");
    reveal_strlit("lockfile_verification");
    reveal_strlit("symlinks");
    reveal_strlit("nested_repositories");
    reveal_strlit("build_outputs");
    reveal_strlit("container_disk");
    reveal_strlit("deletion_bypass");
    reveal_strlit("state_writes");
    reveal_strlit("telemetry");
    reveal_strlit("restore");
    reveal_strlit("network");
    reveal_strlit("auto_update");
    reveal_strlit("confirmation");
    reveal_strlit("lockfile_rewrite");
    reveal_strlit("scheduler");
    reveal_strlit("git_hooks");
    reveal_strlit("opt_in_adapters");
    reveal_strlit("repositories");
    reveal_strlit("idle_window");
    reveal_strlit("binary");
    let keys = report_keys(r, scheduler, hooks, binary);
    let expected = seq![
        "filesystem_scope"@, "lockfile_verification"@, "symlinks"@, "nested_repositories"@,
        "build_outputs"@, "container_disk"@, "deletion_bypass"@, "state_writes"@, "telemetry"@,
        "restore"@, "network"@, "auto_update"@, "confirmation"@, "lockfile_rewrite"@,
        "scheduler"@, "git_hooks"@, "opt_in_adapters"@, "repositories"@, "idle_window"@, "binary"@,
    ];
    assert(keys =~= expected);
    assert forall|i: int, j: int| 0 <= i < j < 20 implies expected[i] != expected[j] by {
        if expected[i] == expected[j] {
            assert(expected[i].len() == expected[j].len());
            assert(expected[i][0] == expected[j][0]);
            assert(expected[i][1] == expected[j][1]);
            assert(expected[i][2] == expected[j][2]);
        }
    }
}

proof fn lemma_values_covered(affected: Seq<Seq<char>>, existing: Seq<Seq<char>>)
    ensures
        forall|j: int| 0 <= j < affected.len() ==> (existing + values_to_add(affected, existing)).contains(
            git_path_text(#[trigger] affected[j]),
        ),
    decreases affected.len(),
{
    if affected.len() > 0 {
        let rest = affected.drop_last();
        lemma_values_covered(rest, existing);
        let added0 = values_to_add(rest, existing);
        let added = values_to_add(affected, existing);
        assert(added0.is_prefix_of(added));
        assert forall|j: int| 0 <= j < affected.len() implies (existing + added).contains(git_path_text(#[trigger] affected[j])) by {
            let v = git_path_text(affected[j]);
            if j < rest.len() {
                assert(rest[j] == affected[j]);
                assert((existing + added0).contains(v));
                let k = choose|k: int| 0 <= k < (existing + added0).len() && (existing + added0)[k] == v;
                assert((existing + added)[k] == v);
            } else if existing.contains(v) {
                let k = choose|k: int| 0 <= k < existing.len() && existing[k] == v;
                assert((existing + added)[k] == v);
            } else {
                assert((existing + added)[existing.len() + added.len() - 1] == v);
            }
        }
    }
}

proof fn lemma_nothing_to_add(affected: Seq<Seq<char>>, existing: Seq<Seq<char>>)
    requires
        forall|j: int| 0 <= j < affected.len() ==> existing.contains(git_path_text(#[trigger] affected[j])),
    ensures
        values_to_add(affected, existing).len() == 0,
    decreases affected.len(),
{
    if affected.len() > 0 {
        let rest = affected.drop_last();
        assert forall|j: int| 0 <= j < rest.len() implies existing.contains(git_path_text(#[trigger] rest[j])) by {
            assert(rest[j] == affected[j]);
        }
        lemma_nothing_to_add(rest, existing);
        assert(existing.contains(git_path_text(affected[affected.len() - 1])));
    }
}

/// Running the ownership fix a second time adds nothing: every value the first run
/// added, or found already there, is in the list the second run reads.
pub proof fn law_running_the_fix_twice_adds_nothing(affected: Seq<Seq<char>>, existing: Seq<Seq<char>>)
    ensures
        values_to_add(affected, existing + values_to_add(affected, existing)).len() == 0,
{
    lemma_values_covered(affected, existing);
    lemma_nothing_to_add(affected, existing + values_to_add(affected, existing));
}

} // verus!
