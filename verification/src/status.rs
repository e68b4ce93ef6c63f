//! What the status command prints: its settings lines, the state of the hooks, and the
//! lockfile-drift report.
use vstd::prelude::*;

use crate::engine;
use crate::order;
use crate::text;

verus! {

/// A number of seconds in the largest unit that divides it exactly: hours, then
/// minutes, then seconds (and `0s` for zero).
pub open spec fn duration_text(secs: u64) -> Seq<char> {
    if secs > 0 && secs % 3600 == 0 {
        text::decimal((secs / 3600) as nat) + "h"@
    } else if secs > 0 && secs % 60 == 0 {
        text::decimal((secs / 60) as nat) + "m"@
    } else {
        text::decimal(secs as nat) + "s"@
    }
}

/// A timeout described in whatever unit fits it.
pub fn format_duration(secs: u64) -> (r: String)
    ensures
        r@ == duration_text(secs),
{
    let mut out: Vec<char>;
    if secs > 0 && secs % 3600 == 0 {
        out = text::decimal_chars(secs / 3600);
        text::push_str(&mut out, "h");
    } else if secs > 0 && secs % 60 == 0 {
        out = text::decimal_chars(secs / 60);
        text::push_str(&mut out, "m");
    } else {
        out = text::decimal_chars(secs);
        text::push_str(&mut out, "s");
    }
    text::string_of(&out)
}

// ---------------------------------------------------------------------------------
// The dashboard's header
// ---------------------------------------------------------------------------------

/// Where the global Git hooks stand: installed and ours, installed in front of another
/// tool's hooks (with the hooks that tool has that are not forwarded), belonging to
/// another tool, or absent.
pub enum HookState {
    /// Ours, and `core.hooksPath` points at them.
    Active,
    /// Ours, forwarding to the hooks of the tool we displaced.
    Chained { previous: String, drifted: Vec<String> },
    /// `core.hooksPath` belongs to another tool, at this path.
    Foreign(String),
    /// Not installed.
    Absent,
}

/// The hooks line of the dashboard: both halves of the installation, since hook files
/// that `core.hooksPath` does not point at never run.
pub open spec fn hook_status_text(state: Result<HookState, String>) -> Seq<char> {
    match state {
        Ok(HookState::Active) => "Active (post-commit, post-checkout, post-merge)"@,
        Ok(HookState::Chained { previous, drifted }) => if drifted@.len() == 0 {
            "Active, chained to "@ + previous@
        } else {
            "Active, chained to "@ + previous@ + " ("@ + text::decimal(drifted@.len()) + " hook(s) not forwarded)"@
        },
        Ok(HookState::Foreign(path)) => "Inactive (core.hooksPath belongs to "@ + path@ + ")"@,
        _ => "Inactive"@,
    }
}

/// The hooks line of the dashboard.
pub fn hook_status_line(state: Result<HookState, String>) -> (r: String)
    ensures
        r@ == hook_status_text(state),
{
    let mut v: Vec<char> = Vec::new();
    match state {
        Ok(HookState::Active) => {
            text::push_str(&mut v, "Active (post-commit, post-checkout, post-merge)");
        },
        Ok(HookState::Chained { previous, drifted }) => {
            text::push_str(&mut v, "Active, chained to ");
            text::push_str(&mut v, previous.as_str());
            if drifted.len() > 0 {
                text::push_str(&mut v, " (");
                let d = text::decimal_chars(drifted.len() as u64);
                text::push_all(&mut v, &d);
                text::push_str(&mut v, " hook(s) not forwarded)");
            }
        },
        Ok(HookState::Foreign(path)) => {
            text::push_str(&mut v, "Inactive (core.hooksPath belongs to ");
            text::push_str(&mut v, path.as_str());
            text::push_str(&mut v, ")");
        },
        _ => {
            text::push_str(&mut v, "Inactive");
        },
    }
    text::string_of(&v)
}

/// The trust report's hooks row: whether Git hooks register repositories on their own.
pub open spec fn hook_row_text(git_available: bool, state: Result<HookState, String>) -> Seq<char> {
    if !git_available {
        "Not installed — git is not on PATH"@
    } else {
        match state {
            Ok(HookState::Active) => "Installed — new repositories register themselves"@,
            Ok(HookState::Absent) => "Not installed — repositories register only when you say so"@,
            Ok(HookState::Chained { previous, .. }) => "Installed, chained to `"@ + previous@ + "`"@,
            Ok(HookState::Foreign(p)) => "Not ours — `core.hooksPath` belongs to `"@ + p@ + "`"@,
            Err(e) => "Unknown ("@ + e@ + ")"@,
        }
    }
}

/// The trust report's hooks row.
pub fn hook_row(git_available: bool, state: Result<HookState, String>) -> (r: String)
    ensures
        r@ == hook_row_text(git_available, state),
{
    let mut v: Vec<char> = Vec::new();
    if !git_available {
        text::push_str(&mut v, "Not installed — git is not on PATH");
        return text::string_of(&v);
    }
    match state {
        Ok(HookState::Active) => text::push_str(&mut v, "Installed — new repositories register themselves"),
        Ok(HookState::Absent) => text::push_str(&mut v, "Not installed — repositories register only when you say so"),
        Ok(HookState::Chained { previous, .. }) => {
            text::push_str(&mut v, "Installed, chained to `");
            text::push_str(&mut v, previous.as_str());
            text::push_str(&mut v, "`");
        },
        Ok(HookState::Foreign(p)) => {
            text::push_str(&mut v, "Not ours — `core.hooksPath` belongs to `");
            text::push_str(&mut v, p.as_str());
            text::push_str(&mut v, "`");
        },
        Err(e) => {
            text::push_str(&mut v, "Unknown (");
            text::push_str(&mut v, e.as_str());
            text::push_str(&mut v, ")");
        },
    }
    text::string_of(&v)
}

/// What the dashboard says when nothing is registered: the first-run state, not an
/// error, so it says how to fill the list.
pub const NOTHING_REGISTERED: &'static str = "No repositories are registered yet. `devp init <folder>` scans a folder and registers every Git repository in it; `devp link .` registers just one.";

/// The timeout line, with the minutes derived from the setting rather than assumed.
pub open spec fn timeout_text(secs: u64) -> Seq<char> {
    "Global Command Timeout: "@ + text::decimal(secs as nat) + "s ("@ + duration_text(secs) + ")"@
}

/// The timeout line.
pub fn timeout_line(secs: u64) -> (r: String)
    ensures
        r@ == timeout_text(secs),
{
    let mut v: Vec<char> = Vec::new();
    text::push_str(&mut v, "Global Command Timeout: ");
    let d = text::decimal_chars(secs);
    text::push_all(&mut v, &d);
    text::push_str(&mut v, "s (");
    let f = format_duration(secs);
    text::push_str(&mut v, f.as_str());
    text::push_str(&mut v, ")");
    text::string_of(&v)
}

/// The size-floor line, shown only when a floor is set.
pub open spec fn min_size_text(mb: u64) -> Option<Seq<char>> {
    if mb > 0 {
        Some("Minimum Directory Size: "@ + text::decimal(mb as nat) + " MiB (smaller ones are left alone)"@)
    } else {
        None
    }
}

/// The size-floor line, when a floor is set.
pub fn min_size_line(mb: u64) -> (r: Option<String>)
    ensures
        text::opt_view(r) == min_size_text(mb),
{
    if mb == 0 {
        return None;
    }
    let mut v: Vec<char> = Vec::new();
    text::push_str(&mut v, "Minimum Directory Size: ");
    let d = text::decimal_chars(mb);
    text::push_all(&mut v, &d);
    text::push_str(&mut v, " MiB (smaller ones are left alone)");
    Some(text::string_of(&v))
}

/// The line saying how many repositories are tracked.
pub open spec fn tracked_text(n: nat) -> Seq<char> {
    "Tracked Repositories:   "@ + text::decimal(n)
}

/// The line saying how many repositories are tracked.
pub fn tracked_line(n: u64) -> (r: String)
    ensures
        r@ == tracked_text(n as nat),
{
    let mut v: Vec<char> = Vec::new();
    text::push_str(&mut v, "Tracked Repositories:   ");
    let d = text::decimal_chars(n);
    text::push_all(&mut v, &d);
    text::string_of(&v)
}

/// The line saying the list is trimmed, when `--top` trims it.
pub open spec fn showing_text(top: Option<u64>) -> Option<Seq<char>> {
    match top {
        Some(n) => Some(
            "Showing:                the "@ + text::decimal(n as nat) + " "@ + if n == 1 {
                "repository"@
            } else {
                "repositories"@
            } + " with the most reclaimable space"@,
        ),
        None => None,
    }
}

/// The line saying the list is trimmed, when `--top` trims it.
pub fn showing_line(top: Option<u64>) -> (r: Option<String>)
    ensures
        text::opt_view(r) == showing_text(top),
{
    match top {
        Some(n) => {
            let mut v: Vec<char> = Vec::new();
            text::push_str(&mut v, "Showing:                the ");
            let d = text::decimal_chars(n);
            text::push_all(&mut v, &d);
            text::push_str(&mut v, " ");
            text::push_str(&mut v, if n == 1 { "repository" } else { "repositories" });
            text::push_str(&mut v, " with the most reclaimable space");
            Some(text::string_of(&v))
        },
        None => None,
    }
}

// ---------------------------------------------------------------------------------
// Lockfile drift
// ---------------------------------------------------------------------------------

/// One project's lockfile drift, located: which repository, which project inside it,
/// which adapter found it, the drifted directory, the packages installed there that the
/// lockfile does not record, and the command that records them.
pub struct ProjectDrift {
    /// The registered repository.
    pub repository: String,
    /// The project, relative to the repository, `/`-separated; `.` is the root.
    pub project: String,
    /// The adapter that made the comparison.
    pub adapter: String,
    /// The drifted directory, relative to the project.
    pub directory: String,
    /// The unrecorded packages.
    pub unrecorded: Vec<String>,
    /// The command that records them.
    pub record_command: String,
}

/// Two findings compared by repository (as paths compare), then project, adapter and
/// directory (as text compares).
pub open spec fn drift_order(a: ProjectDrift, b: ProjectDrift) -> int {
    let r = order::path_order(a.repository@, b.repository@);
    if r != 0 {
        r
    } else {
        let p = order::text_order(a.project@, b.project@);
        if p != 0 {
            p
        } else {
            let d = order::text_order(a.adapter@, b.adapter@);
            if d != 0 {
                d
            } else {
                order::text_order(a.directory@, b.directory@)
            }
        }
    }
}

fn drift_compare(a: &ProjectDrift, b: &ProjectDrift) -> (r: i8)
    ensures
        r as int == drift_order(*a, *b),
{
    let r = order::compare_paths(a.repository.as_str(), b.repository.as_str());
    if r != 0 {
        return r;
    }
    let ap = text::chars_of(a.project.as_str());
    let bp = text::chars_of(b.project.as_str());
    let p = order::text_order_exec(&ap, &bp);
    if p != 0 {
        return p;
    }
    let aa = text::chars_of(a.adapter.as_str());
    let ba = text::chars_of(b.adapter.as_str());
    let d = order::text_order_exec(&aa, &ba);
    if d != 0 {
        return d;
    }
    let ad = text::chars_of(a.directory.as_str());
    let bd = text::chars_of(b.directory.as_str());
    order::text_order_exec(&ad, &bd)
}

proof fn lemma_drift_order(a: ProjectDrift, b: ProjectDrift, c: ProjectDrift)
    ensures
        drift_order(a, b) == -drift_order(b, a),
        drift_order(a, b) <= 0 && drift_order(b, c) <= 0 ==> drift_order(a, c) <= 0,
{
    order::lemma_components_order(order::components_of(a.repository@), order::components_of(b.repository@));
    order::lemma_components_order(order::components_of(b.repository@), order::components_of(c.repository@));
    order::lemma_components_order(order::components_of(a.repository@), order::components_of(c.repository@));
    order::lemma_text_order(a.project@, b.project@);
    order::lemma_text_order(b.project@, c.project@);
    order::lemma_text_order(a.project@, c.project@);
    order::lemma_text_order(a.adapter@, b.adapter@);
    order::lemma_text_order(b.adapter@, c.adapter@);
    order::lemma_text_order(a.adapter@, c.adapter@);
    order::lemma_text_order(a.directory@, b.directory@);
    order::lemma_text_order(b.directory@, c.directory@);
    order::lemma_text_order(a.directory@, c.directory@);
    if drift_order(a, b) <= 0 && drift_order(b, c) <= 0 {
        let ra = order::components_of(a.repository@);
        let rb = order::components_of(b.repository@);
        let rc = order::components_of(c.repository@);
        order::lemma_components_order_trans(ra, rb, rc);
        if order::text_order(a.project@, b.project@) <= 0 && order::text_order(b.project@, c.project@) <= 0 {
            order::lemma_text_order_trans(a.project@, b.project@, c.project@);
        }
        if order::text_order(a.adapter@, b.adapter@) <= 0 && order::text_order(b.adapter@, c.adapter@) <= 0 {
            order::lemma_text_order_trans(a.adapter@, b.adapter@, c.adapter@);
        }
        if order::text_order(a.directory@, b.directory@) <= 0 && order::text_order(b.directory@, c.directory@) <= 0 {
            order::lemma_text_order_trans(a.directory@, b.directory@, c.directory@);
        }
        if order::components_order(ra, rc) == 0 {
            order::lemma_components_order_trans(rb, rc, ra);
        }
        if order::text_order(a.project@, c.project@) == 0 && order::text_order(b.project@, c.project@) <= 0 {
            order::lemma_text_order_trans(b.project@, c.project@, a.project@);
        }
        if order::text_order(a.adapter@, c.adapter@) == 0 && order::text_order(b.adapter@, c.adapter@) <= 0 {
            order::lemma_text_order_trans(b.adapter@, c.adapter@, a.adapter@);
        }
    }
}

/// The order the drift report lists findings in, whatever order the scan found them:
/// by repository, project, adapter and directory, so the same machine reads the same
/// on every run. The result lists indices into `findings`, stably sorted.
pub fn drift_report_order(findings: &Vec<ProjectDrift>) -> (r: Vec<usize>)
    ensures
        order::is_permutation(r@, findings@.len()),
        forall|a: int, b: int| 0 <= a < b < r@.len() ==> drift_order(findings@[r@[a] as int], findings@[r@[b] as int]) <= 0,
        forall|a: int, b: int|
            0 <= a < b < r@.len() && drift_order(findings@[r@[a] as int], findings@[r@[b] as int]) == 0 ==> r@[a] < r@[b],
{
    let n = findings.len();
    let mut table: Vec<Vec<i8>> = Vec::new();
    let mut i: usize = 0;
    while i < n
        invariant
            i <= n,
            n == findings@.len(),
            table@.len() == i,
            forall|x: int| 0 <= x < i ==> (#[trigger] table@[x])@.len() == n,
            forall|x: int, y: int| 0 <= x < i && 0 <= y < n ==> #[trigger] table@[x]@[y] as int == drift_order(findings@[x], findings@[y]),
        decreases n - i,
    {
        let mut row: Vec<i8> = Vec::new();
        let mut j: usize = 0;
        while j < n
            invariant
                j <= n,
                i < n,
                n == findings@.len(),
                row@.len() == j,
                forall|y: int| 0 <= y < j ==> #[trigger] row@[y] as int == drift_order(findings@[i as int], findings@[y]),
            decreases n - j,
        {
            row.push(drift_compare(&findings[i], &findings[j]));
            j = j + 1;
        }
        table.push(row);
        i = i + 1;
    }
    let ghost tv = order::table_view(table@);
    assert forall|x: int, y: int| 0 <= x < n && 0 <= y < n implies #[trigger] tv[x][y] as int == drift_order(findings@[x], findings@[y]) by {
        assert(tv[x] == table@[x]@);
    }
    assert(order::is_preorder_table(tv, n as nat)) by {
        assert forall|x: int| 0 <= x < n implies (#[trigger] tv[x]).len() == n by {
            assert(tv[x] == table@[x]@);
        }
        assert forall|x: int, y: int| 0 <= x < n && 0 <= y < n implies #[trigger] tv[x][y] == -tv[y][x] by {
            lemma_drift_order(findings@[x], findings@[y], findings@[y]);
        }
        assert forall|x: int, y: int, z: int|
            0 <= x < n && 0 <= y < n && 0 <= z < n && #[trigger] tv[x][y] <= 0 && #[trigger] tv[y][z] <= 0 implies tv[x][z] <= 0 by {
            lemma_drift_order(findings@[x], findings@[y], findings@[z]);
        }
    }
    let r = order::sort_by_table(&table);
    assert forall|a: int, b: int| 0 <= a < b < r@.len() implies drift_order(findings@[r@[a] as int], findings@[r@[b] as int]) <= 0 by {
        assert(r@[a] < n && r@[b] < n);
        assert(tv[r@[a] as int][r@[b] as int] <= 0);
    }
    assert forall|a: int, b: int|
        0 <= a < b < r@.len() && drift_order(findings@[r@[a] as int], findings@[r@[b] as int]) == 0 implies r@[a] < r@[b] by {
        assert(r@[a] < n && r@[b] < n);
        assert(tv[r@[a] as int][r@[b] as int] == 0);
    }
    r
}

/// Where a finding is, for the report: the directory, under its project unless the
/// project is the repository root.
pub open spec fn drift_location(project: Seq<char>, directory: Seq<char>) -> Seq<char> {
    if project == "."@ {
        directory
    } else {
        project + "/"@ + directory
    }
}

/// `package` or `packages`, as the count asks.
pub open spec fn packages_word(n: nat) -> Seq<char> {
    if n == 1 {
        "package"@
    } else {
        "packages"@
    }
}

/// The line naming a finding: where, which adapter, how many packages, the first ten
/// by name and how many more.
pub open spec fn drift_line_text(f: ProjectDrift) -> Seq<char> {
    let names = text::views(f.unrecorded@);
    let n = names.len();
    let shown = engine::joined_with(if n > 10 { names.take(10) } else { names }, ", "@);
    let suffix = if n > 10 {
        ", … and "@ + text::decimal((n - 10) as nat) + " more"@
    } else {
        seq![]
    };
    "    "@ + drift_location(f.project@, f.directory@) + " ("@ + f.adapter@ + "): "@ + text::decimal(n)
        + " unrecorded "@ + packages_word(n) + " — "@ + shown + suffix
}

/// The line naming a finding.
pub fn drift_line(f: &ProjectDrift) -> (r: String)
    ensures
        r@ == drift_line_text(*f),
{
    proof {
        reveal_strlit(".");
    }
    let n = f.unrecorded.len();
    let mut v: Vec<char> = Vec::new();
    text::push_str(&mut v, "    ");
    if text::str_eq(f.project.as_str(), ".") {
        text::push_str(&mut v, f.directory.as_str());
    } else {
        text::push_str(&mut v, f.project.as_str());
        text::push_str(&mut v, "/");
        text::push_str(&mut v, f.directory.as_str());
    }
    text::push_str(&mut v, " (");
    text::push_str(&mut v, f.adapter.as_str());
    text::push_str(&mut v, "): ");
    let d = text::decimal_chars(n as u64);
    text::push_all(&mut v, &d);
    text::push_str(&mut v, " unrecorded ");
    text::push_str(&mut v, if n == 1 { "package" } else { "packages" });
    text::push_str(&mut v, " — ");
    let mut first: Vec<String> = Vec::new();
    let take = if n > 10 { 10 } else { n };
    let mut i: usize = 0;
    while i < take
        invariant
            i <= take,
            take <= f.unrecorded@.len(),
            text::views(first@) == text::views(f.unrecorded@).take(i as int),
        decreases take - i,
    {
        let ghost before = text::views(first@);
        first.push(f.unrecorded[i].clone());
        assert(text::views(f.unrecorded@)[i as int] == f.unrecorded@[i as int]@);
        assert(text::views(first@) =~= before.push(f.unrecorded@[i as int]@));
        assert(text::views(first@) =~= text::views(f.unrecorded@).take(i + 1));
        i = i + 1;
    }
    assert(text::views(first@) =~= if n > 10 {
        text::views(f.unrecorded@).take(10)
    } else {
        text::views(f.unrecorded@)
    });
    let shown = engine::join_with(&first, ", ");
    text::push_all(&mut v, &shown);
    if n > 10 {
        text::push_str(&mut v, ", … and ");
        let m = text::decimal_chars((n - 10) as u64);
        text::push_all(&mut v, &m);
        text::push_str(&mut v, " more");
    }
    text::string_of(&v)
}

/// The line telling how to record a finding's packages.
pub open spec fn record_line_text(f: ProjectDrift) -> Seq<char> {
    "      record them: "@ + f.record_command@
}

/// The line telling how to record a finding's packages.
pub fn record_line(f: &ProjectDrift) -> (r: String)
    ensures
        r@ == record_line_text(*f),
{
    let mut v: Vec<char> = Vec::new();
    text::push_str(&mut v, "      record them: ");
    text::push_str(&mut v, f.record_command.as_str());
    text::string_of(&v)
}

} // verus!
