//! Release checks and self-update: comparing versions, naming the release asset,
//! reading the published checksum and the latest release tag, and checking a download
//! against its digest.
//!
//! The network requests and the file replacement belong to the caller; this module
//! decides what they mean.
use vstd::prelude::*;

use sha2::Digest;
use std::cmp::Ordering;

use crate::config;
use crate::text;

verus! {

broadcast use vstd::seq_lib::group_seq_properties;

/// The version of this build.
pub const VERSION: &'static str = "1.17.0";

// ---------------------------------------------------------------------------------
// Version comparison
// ---------------------------------------------------------------------------------

/// The part of a version before any pre-release (`-`) or build (`+`) suffix.
pub open spec fn version_core(v: Seq<char>) -> Seq<char>
    decreases v.len(),
{
    if v.len() == 0 || v[0] == '-' || v[0] == '+' {
        seq![]
    } else {
        seq![v[0]] + version_core(v.drop_first())
    }
}

/// `str::split(c)`: the pieces between occurrences of `c`, empty ones included.
pub open spec fn split_on(s: Seq<char>, c: char) -> Seq<Seq<char>>
    decreases s.len(),
{
    match text::find(s, seq![c]) {
        Some(i) => if 0 <= i < s.len() {
            seq![s.take(i)] + split_on(s.skip(i + 1), c)
        } else {
            seq![s]
        },
        None => seq![s],
    }
}

/// The `major.minor.patch` numbers of a version, or `None` when its core is not
/// exactly three dot-separated numbers.
pub open spec fn version_numbers(v: Seq<char>) -> Option<(u64, u64, u64)> {
    let parts = split_on(version_core(v), '.');
    if parts.len() == 3 && text::parse_u64(parts[0]) is Some && text::parse_u64(parts[1]) is Some
        && text::parse_u64(parts[2]) is Some {
        Some(
            (
                text::parse_u64(parts[0])->0,
                text::parse_u64(parts[1])->0,
                text::parse_u64(parts[2])->0,
            ),
        )
    } else {
        None
    }
}

/// How two numbers compare.
pub open spec fn order_of(a: u64, b: u64) -> Ordering {
    if a < b {
        Ordering::Less
    } else if a == b {
        Ordering::Equal
    } else {
        Ordering::Greater
    }
}

/// How two version triples compare, component by component.
pub open spec fn triple_order(a: (u64, u64, u64), b: (u64, u64, u64)) -> Ordering {
    if a.0 != b.0 {
        order_of(a.0, b.0)
    } else if a.1 != b.1 {
        order_of(a.1, b.1)
    } else {
        order_of(a.2, b.2)
    }
}

/// How two versions compare by their numeric core, or `None` when either is not
/// `major.minor.patch`.
pub open spec fn version_order(a: Seq<char>, b: Seq<char>) -> Option<Ordering> {
    match (version_numbers(a), version_numbers(b)) {
        (Some(x), Some(y)) => Some(triple_order(x, y)),
        _ => None,
    }
}

/// The core of a version, before any `-` or `+`.
fn core_chars(v: &[char]) -> (r: Vec<char>)
    ensures
        r@ == version_core(v@),
{
    let mut n: usize = 0;
    while n < v.len() && v[n] != '-' && v[n] != '+'
        invariant
            n <= v.len(),
            version_core(v@) == v@.take(n as int) + version_core(v@.skip(n as int)),
        decreases v.len() - n,
    {
        assert(v@.skip(n as int).drop_first() == v@.skip(n + 1));
        assert(v@.take(n + 1) == v@.take(n as int) + seq![v@[n as int]]);
        n = n + 1;
    }
    assert(version_core(v@.skip(n as int)) == Seq::<char>::empty());
    text::slice_of(v, 0, n)
}

/// `str::split(c)`.
pub fn split_on_chars(s: &[char], c: char) -> (parts: Vec<Vec<char>>)
    ensures
        text::seqs_of(parts@) == split_on(s@, c),
{
    let mut parts: Vec<Vec<char>> = Vec::new();
    let mut rest: Vec<char> = text::slice_of(s, 0, s.len());
    let pat: Vec<char> = vec![c];
    assert(pat@ == seq![c]);
    loop
        invariant
            pat@ == seq![c],
            text::seqs_of(parts@) + split_on(rest@, c) == split_on(s@, c),
        decreases rest.len(),
    {
        proof {
            text::lemma_find(rest@, pat@);
        }
        match text::find_chars(&rest, &pat) {
            Some(i) => {
                let piece = text::slice_of(&rest, 0, i);
                let next = text::slice_of(&rest, i + 1, rest.len());
                let ghost old_v = parts@;
                proof {
                    text::lemma_seqs_of_push(old_v, piece);
                }
                parts.push(piece);
                rest = next;
            },
            None => {
                let ghost old_v = parts@;
                proof {
                    text::lemma_seqs_of_push(old_v, rest);
                }
                parts.push(rest);
                return parts;
            },
        }
    }
}

/// The `major.minor.patch` numbers of a version.
fn parse_version(v: &str) -> (r: Option<(u64, u64, u64)>)
    ensures
        r == version_numbers(v@),
{
    let chars = text::chars_of(v);
    let core = core_chars(&chars);
    let parts = split_on_chars(&core, '.');
    if parts.len() != 3 {
        return None;
    }
    assert(text::seqs_of(parts@)[0] == parts@[0]@);
    assert(text::seqs_of(parts@)[1] == parts@[1]@);
    assert(text::seqs_of(parts@)[2] == parts@[2]@);
    let a = match text::parse_u64_chars(&parts[0]) {
        Some(a) => a,
        None => return None,
    };
    let b = match text::parse_u64_chars(&parts[1]) {
        Some(b) => b,
        None => return None,
    };
    let c = match text::parse_u64_chars(&parts[2]) {
        Some(c) => c,
        None => return None,
    };
    Some((a, b, c))
}

fn order_u64(a: u64, b: u64) -> (r: Ordering)
    ensures
        r == order_of(a, b),
{
    if a < b {
        Ordering::Less
    } else if a == b {
        Ordering::Equal
    } else {
        Ordering::Greater
    }
}

/// Compare two dotted numeric versions, ignoring any pre-release or build suffix.
///
/// `None` when either side is not `major.minor.patch`: better to say "could not
/// compare" than to claim an upgrade exists because `1.0.0` sorts before `1.0.0-rc.1`
/// as a string.
pub fn compare_versions(a: &str, b: &str) -> (r: Option<Ordering>)
    ensures
        r == version_order(a@, b@),
{
    let x = match parse_version(a) {
        Some(x) => x,
        None => return None,
    };
    let y = match parse_version(b) {
        Some(y) => y,
        None => return None,
    };
    if x.0 != y.0 {
        Some(order_u64(x.0, y.0))
    } else if x.1 != y.1 {
        Some(order_u64(x.1, y.1))
    } else {
        Some(order_u64(x.2, y.2))
    }
}

/// Versions compare as their `(major, minor, patch)` numbers do, most significant
/// first: the major decides, then the minor, and the patch only when both agree.
pub proof fn law_versions_compare_most_significant_first(a: Seq<char>, b: Seq<char>)
    requires
        version_numbers(a) is Some,
        version_numbers(b) is Some,
    ensures
        ({
            let x = version_numbers(a)->0;
            let y = version_numbers(b)->0;
            &&& version_order(a, b) == Some(Ordering::Less) <==> (x.0 < y.0 || (x.0 == y.0 && x.1 < y.1) || (x.0
                == y.0 && x.1 == y.1 && x.2 < y.2))
            &&& version_order(a, b) == Some(Ordering::Equal) <==> (x.0 == y.0 && x.1 == y.1 && x.2 == y.2)
            &&& version_order(a, b) == Some(Ordering::Greater) <==> (x.0 > y.0 || (x.0 == y.0 && x.1 > y.1) || (
            x.0 == y.0 && x.1 == y.1 && x.2 > y.2))
        }),
{
}

/// Version comparison is antisymmetric: swapping the sides reverses the answer, and
/// a version that can be compared at all equals itself.
pub proof fn law_comparison_is_antisymmetric(a: Seq<char>, b: Seq<char>)
    ensures
        version_order(a, b) == Some(Ordering::Less) <==> version_order(b, a) == Some(
            Ordering::Greater,
        ),
        version_order(a, b) == Some(Ordering::Equal) <==> version_order(b, a) == Some(
            Ordering::Equal,
        ),
        version_order(a, b) is None <==> version_order(b, a) is None,
        version_numbers(a) is Some ==> version_order(a, a) == Some(Ordering::Equal),
{
}

// ---------------------------------------------------------------------------------
// Notices
// ---------------------------------------------------------------------------------

/// The sentence every refusal under `version_lock` prints: the release that is out,
/// when one is known, the version held, and the way out.
pub open spec fn locked_text(latest: Option<Seq<char>>) -> Seq<char> {
    let head = match latest {
        Some(l) => "dev-prune v"@ + l + " is out. "@,
        None => seq![],
    };
    head + "`version_lock` is on, so this copy stays at v"@ + VERSION@
        + ". `devp config set version_lock false` releases it."@
}

/// The one sentence every refusal prints, so the pin and the way out of it always
/// arrive together.
pub fn locked_notice(latest: Option<&str>) -> (r: String)
    ensures
        r@ == locked_text(
            match latest {
                Some(l) => Some(l@),
                None => None,
            },
        ),
{
    let mut out: Vec<char> = Vec::new();
    match latest {
        Some(l) => {
            text::push_str(&mut out, "dev-prune v");
            text::push_str(&mut out, l);
            text::push_str(&mut out, " is out. ");
        },
        None => {},
    }
    text::push_str(&mut out, "`version_lock` is on, so this copy stays at v");
    text::push_str(&mut out, VERSION);
    text::push_str(&mut out, ". `devp config set version_lock false` releases it.");
    text::string_of(&out)
}

/// The reminder printed when this build is behind `latest`.
pub open spec fn outdated_text(latest: Seq<char>, version_lock: bool) -> Seq<char> {
    if version_lock {
        locked_text(Some(latest))
    } else {
        "dev-prune v"@ + latest + " is out (you have v"@ + VERSION@
            + "). `devp update` has the commands; `devp config set update_check false` silences this."@
    }
}

/// What to tell the user about the latest known release: nothing unless it is newer
/// than this build; then the refusal under `version_lock`, the reminder otherwise.
pub fn outdated_notice(latest: Option<&str>, version_lock: bool) -> (r: Option<String>)
    ensures
        text::opt_view(r) == match latest {
            Some(l) => if version_order(VERSION@, l@) == Some(Ordering::Less) {
                Some(outdated_text(l@, version_lock))
            } else {
                None
            },
            None => None,
        },
{
    let l = match latest {
        Some(l) => l,
        None => return None,
    };
    match compare_versions(VERSION, l) {
        Some(Ordering::Less) => {},
        _ => return None,
    }
    if version_lock {
        return Some(locked_notice(Some(l)));
    }
    let mut out: Vec<char> = Vec::new();
    text::push_str(&mut out, "dev-prune v");
    text::push_str(&mut out, l);
    text::push_str(&mut out, " is out (you have v");
    text::push_str(&mut out, VERSION);
    text::push_str(
        &mut out,
        "). `devp update` has the commands; `devp config set update_check false` silences this.",
    );
    Some(text::string_of(&out))
}

// ---------------------------------------------------------------------------------
// When to check
// ---------------------------------------------------------------------------------

/// Whole days between two instants, truncated toward zero as `num_days` does.
pub open spec fn whole_days(from: i64, to: i64) -> int {
    let d = to - from;
    if d >= 0 {
        d / 86400
    } else {
        -((-d) / 86400)
    }
}

/// Whether the release check is due: it has never run, or ran at least
/// `interval_days` whole days before `now`. Times are seconds since the epoch.
pub open spec fn check_due(last: Option<i64>, now: i64, interval_days: i64) -> bool {
    match last {
        Some(t) => whole_days(t, now) >= interval_days,
        None => true,
    }
}

/// Whether the release check is due.
pub fn is_check_due(last: Option<i64>, now: i64, interval_days: i64) -> (r: bool)
    ensures
        r == check_due(last, now, interval_days),
{
    match last {
        Some(t) => {
            let d: i128 = (now as i128) - (t as i128);
            let days: i128 = if d >= 0 {
                d / 86400
            } else {
                -((-d) / 86400)
            };
            days >= (interval_days as i128)
        },
        None => true,
    }
}

/// Whether a release check should run now: never when the user turned it off, and
/// otherwise when it is due.
pub fn release_check_due(registry: &config::Registry, now: i64) -> (r: bool)
    ensures
        r == (registry@.settings.update_check && check_due(
            registry@.last_update_check,
            now,
            registry@.settings.update_check_interval_days,
        )),
{
    registry.settings.update_check && is_check_due(
        registry.last_update_check,
        now,
        registry.settings.update_check_interval_days,
    )
}

/// The registry after a release check made at `now` answered `result`.
pub open spec fn checked(r: config::RegistryView, now: i64, result: Result<Seq<char>, Seq<char>>) -> config::RegistryView {
    config::RegistryView {
        last_update_check: Some(now),
        latest_known_version: match result {
            Ok(v) => Some(v),
            Err(_) => r.latest_known_version,
        },
        ..r
    }
}

/// Record a release check made at `now`: the time whatever the answer, so a machine
/// that is offline is not asked again on every command, and the version when one came
/// back.
pub fn record_release_check(registry: &mut config::Registry, now: i64, result: Result<String, String>)
    requires
        old(registry).wf(),
    ensures
        final(registry).wf(),
        final(registry)@ == checked(old(registry)@, now, result_view(result)),
{
    registry.last_update_check = Some(now);
    match result {
        Ok(v) => {
            registry.latest_known_version = Some(v);
        },
        Err(_) => {},
    }
}

/// The release an automatic update would install: only with `auto_update` on, the
/// network allowed and setup not held off, and then the last known release when it is
/// newer than this build.
pub open spec fn auto_update_target(r: config::RegistryView, offline: bool, hands_off: bool) -> Option<Seq<char>> {
    if !r.settings.auto_update || offline || hands_off {
        None
    } else {
        match r.latest_known_version {
            Some(l) => if version_order(VERSION@, l) == Some(Ordering::Less) {
                Some(l)
            } else {
                None
            },
            None => None,
        }
    }
}

/// What the unattended update after a pass does.
pub enum AutoUpdateStep {
    /// Nothing to install, or not allowed to look.
    Stay,
    /// A newer release is known but `version_lock` holds this copy: print the notice.
    Locked(String),
    /// Download and install this release.
    Install(String),
}

/// What the unattended update after a pass does: stay silent with nothing to install,
/// say why when the pin holds a newer release back, or install it.
pub fn auto_update_step(registry: &config::Registry, offline: bool, hands_off: bool) -> (r: AutoUpdateStep)
    ensures
        match auto_update_target(registry@, offline, hands_off) {
            None => r is Stay,
            Some(l) => if registry@.settings.version_lock {
                r matches AutoUpdateStep::Locked(n) && n@ == locked_text(Some(l))
            } else {
                r matches AutoUpdateStep::Install(v) && v@ == l
            },
        },
{
    if !registry.settings.auto_update || offline || hands_off {
        return AutoUpdateStep::Stay;
    }
    let latest = match &registry.latest_known_version {
        Some(l) => l,
        None => return AutoUpdateStep::Stay,
    };
    match compare_versions(VERSION, latest.as_str()) {
        Some(Ordering::Less) => {},
        _ => return AutoUpdateStep::Stay,
    }
    if registry.settings.version_lock {
        AutoUpdateStep::Locked(locked_notice(Some(latest.as_str())))
    } else {
        AutoUpdateStep::Install(latest.clone())
    }
}

/// The variable that keeps every command off the network.
pub const ENV_OFFLINE: &'static str = "DEV_PRUNE_OFFLINE";

/// Why `devp update --install` stops before touching the network, if it does: the pin
/// first (a refusal the configuration guarantees costs nothing and says why), then an
/// offline request (an install needs the network by definition).
pub open spec fn install_refusal(version_lock: bool, offline: bool) -> Option<Seq<char>> {
    if version_lock {
        Some(locked_text(None))
    } else if offline {
        Some(ENV_OFFLINE@ + " is set — an install needs the network by definition."@)
    } else {
        None
    }
}

/// Why `devp update --install` stops before touching the network, if it does.
pub fn install_gate(registry: &config::Registry, offline: bool) -> (r: Result<(), String>)
    ensures
        match r {
            Ok(()) => install_refusal(registry@.settings.version_lock, offline) is None,
            Err(m) => install_refusal(registry@.settings.version_lock, offline) == Some(m@),
        },
{
    if registry.settings.version_lock {
        return Err(locked_notice(None));
    }
    if offline {
        let mut v: Vec<char> = Vec::new();
        text::push_str(&mut v, ENV_OFFLINE);
        text::push_str(&mut v, " is set — an install needs the network by definition.");
        return Err(text::string_of(&v));
    }
    Ok(())
}

/// What `devp update --install` does once it knows the latest release.
pub enum InstallStep {
    /// Nothing newer: say so and stop.
    UpToDate(String),
    /// Replace this copy, announced with this line.
    Upgrade(String),
}

/// What `devp update --install` does once it knows the latest release: nothing unless
/// it is newer than this build (an unreadable version counts as not newer, so an
/// installer never runs blind).
pub fn install_step(latest: &str) -> (r: InstallStep)
    ensures
        match r {
            InstallStep::UpToDate(m) => version_order(VERSION@, latest@) != Some(Ordering::Less)
                && m@ == "v"@ + VERSION@ + " is already the latest release — nothing to install."@,
            InstallStep::Upgrade(m) => version_order(VERSION@, latest@) == Some(Ordering::Less)
                && m@ == "Upgrading v"@ + VERSION@ + " -> v"@ + latest@ + " …"@,
        },
{
    match compare_versions(VERSION, latest) {
        Some(Ordering::Less) => {
            let mut v: Vec<char> = Vec::new();
            text::push_str(&mut v, "Upgrading v");
            text::push_str(&mut v, VERSION);
            text::push_str(&mut v, " -> v");
            text::push_str(&mut v, latest);
            text::push_str(&mut v, " …");
            InstallStep::Upgrade(text::string_of(&v))
        },
        _ => {
            let mut v: Vec<char> = Vec::new();
            text::push_str(&mut v, "v");
            text::push_str(&mut v, VERSION);
            text::push_str(&mut v, " is already the latest release — nothing to install.");
            InstallStep::UpToDate(text::string_of(&v))
        },
    }
}

/// Where this build stands against the latest release.
#[derive(Clone, Copy, PartialEq, Eq, Debug)]
pub enum Standing {
    /// A newer release exists.
    Behind,
    /// This is the latest release.
    Current,
    /// This build is newer than anything published.
    Ahead,
    /// One of the two versions is not `major.minor.patch`.
    Incomparable,
}

/// The line `devp update` reports the latest release with, and how it stands.
pub open spec fn comparison_text(latest: Seq<char>) -> (Standing, Seq<char>) {
    let head = "Latest release:    v"@ + latest;
    match version_order(VERSION@, latest) {
        Some(Ordering::Less) => (Standing::Behind, head + " — an upgrade is available."@),
        Some(Ordering::Equal) => (Standing::Current, head + " — you are up to date."@),
        Some(Ordering::Greater) => (
            Standing::Ahead,
            head + " — your build is newer than the last published one."@,
        ),
        None => (Standing::Incomparable, head + " (could not compare it to v"@ + VERSION@ + ")."@),
    }
}

/// Where this build stands against `latest`, and the line that says so. A local build
/// between releases is ahead, which is normal rather than wrong.
pub fn release_comparison(latest: &str) -> (r: (Standing, String))
    ensures
        (r.0, r.1@) == comparison_text(latest@),
{
    let mut v: Vec<char> = Vec::new();
    text::push_str(&mut v, "Latest release:    v");
    text::push_str(&mut v, latest);
    let standing = match compare_versions(VERSION, latest) {
        Some(Ordering::Less) => {
            text::push_str(&mut v, " — an upgrade is available.");
            Standing::Behind
        },
        Some(Ordering::Equal) => {
            text::push_str(&mut v, " — you are up to date.");
            Standing::Current
        },
        Some(Ordering::Greater) => {
            text::push_str(&mut v, " — your build is newer than the last published one.");
            Standing::Ahead
        },
        None => {
            text::push_str(&mut v, " (could not compare it to v");
            text::push_str(&mut v, VERSION);
            text::push_str(&mut v, ").");
            Standing::Incomparable
        },
    };
    (standing, text::string_of(&v))
}

/// The two public names of the binary on the platform.
pub open spec fn pair_names(windows: bool) -> Seq<Seq<char>> {
    if windows {
        seq!["dev-prune.exe"@, "devp.exe"@]
    } else {
        seq!["dev-prune"@, "devp"@]
    }
}

/// `list` with `p` appended unless it is already there.
pub open spec fn with_new(list: Seq<Seq<char>>, p: Seq<char>) -> Seq<Seq<char>> {
    if list.contains(p) {
        list
    } else {
        list.push(p)
    }
}

/// The twins in the primary's directory: both names but the primary itself, each one
/// whether or not it exists when the directory is the managed one (which owns both
/// names), otherwise only those that are files already.
pub open spec fn primary_twins(primary: Seq<char>, dir: Seq<char>, managed: bool, files: Seq<Seq<char>>, windows: bool) -> Seq<Seq<char>> {
    let a = config::joined(dir, pair_names(windows)[0], windows);
    let b = config::joined(dir, pair_names(windows)[1], windows);
    let first: Seq<Seq<char>> = if a != primary && (managed || files.contains(a)) { seq![a] } else { seq![] };
    if b != primary && (managed || files.contains(b)) { first.push(b) } else { first }
}

/// Every other file that is a copy of the binary being replaced, in order: the twins
/// beside the primary copy, then (when the running copy's directory may be rewritten)
/// the running copy and the twins beside it that are files already, none twice and
/// never the primary. `files` lists the paths that are existing files.
pub open spec fn companions(
    primary: Seq<char>,
    primary_dir: Option<Seq<char>>,
    managed: bool,
    exe: Seq<char>,
    exe_dir: Option<Seq<char>>,
    replace_exe_dir: bool,
    files: Seq<Seq<char>>,
    windows: bool,
) -> Seq<Seq<char>> {
    let also = match primary_dir {
        Some(d) => primary_twins(primary, d, managed, files, windows),
        None => seq![],
    };
    if !replace_exe_dir {
        also
    } else {
        let with_exe = with_new(also, exe);
        match exe_dir {
            Some(d) => {
                let a = config::joined(d, pair_names(windows)[0], windows);
                let b = config::joined(d, pair_names(windows)[1], windows);
                let one = if a != exe && a != primary && files.contains(a) { with_new(with_exe, a) } else { with_exe };
                if b != exe && b != primary && files.contains(b) { with_new(one, b) } else { one }
            },
            None => with_exe,
        }
    }
}

fn listed(list: &Vec<String>, s: &str) -> (r: bool)
    ensures
        r == text::views(list@).contains(s@),
{
    let mut i: usize = 0;
    while i < list.len()
        invariant
            i <= list@.len(),
            forall|k: int| 0 <= k < i ==> list@[k]@ != s@,
        decreases list@.len() - i,
    {
        if text::str_eq(list[i].as_str(), s) {
            assert(text::views(list@)[i as int] == s@);
            return true;
        }
        i = i + 1;
    }
    assert(!text::views(list@).contains(s@)) by {
        if text::views(list@).contains(s@) {
            let k = choose|k: int| 0 <= k < list@.len() && text::views(list@)[k] == s@;
            assert(list@[k]@ == s@);
        }
    }
    false
}

fn add_new(list: &mut Vec<String>, s: String)
    ensures
        text::views(final(list)@) == with_new(text::views(old(list)@), s@),
{
    if !listed(list, s.as_str()) {
        let ghost before = text::views(list@);
        list.push(s);
        assert(text::views(list@) =~= before.push(list@.last()@));
    }
}

/// Every other file that is a copy of the binary being replaced. `primary_dir` and
/// `exe_dir` are the directories of the primary and the running copy, `files` the
/// candidate paths that are existing files.
pub fn companion_copies(
    primary: &str,
    primary_dir: Option<&str>,
    primary_is_managed: bool,
    exe: &str,
    exe_dir: Option<&str>,
    replace_exe_dir: bool,
    files: &Vec<String>,
    windows: bool,
) -> (r: Vec<String>)
    ensures
        text::views(r@) == companions(
            primary@,
            match primary_dir {
                Some(d) => Some(d@),
                None => None,
            },
            primary_is_managed,
            exe@,
            match exe_dir {
                Some(d) => Some(d@),
                None => None,
            },
            replace_exe_dir,
            text::views(files@),
            windows,
        ),
{
    let first_name = if windows { "dev-prune.exe" } else { "dev-prune" };
    let second_name = if windows { "devp.exe" } else { "devp" };
    assert(first_name@ == pair_names(windows)[0] && second_name@ == pair_names(windows)[1]);
    let mut also: Vec<String> = Vec::new();
    if let Some(d) = primary_dir {
        let a = config::join_path(d, first_name, windows);
        let b = config::join_path(d, second_name, windows);
        if !text::str_eq(a.as_str(), primary) && (primary_is_managed || listed(files, a.as_str())) {
            also.push(a);
        }
        if !text::str_eq(b.as_str(), primary) && (primary_is_managed || listed(files, b.as_str())) {
            let ghost before = text::views(also@);
            also.push(b);
            assert(text::views(also@) =~= before.push(also@.last()@));
        }
        assert(text::views(also@) =~= primary_twins(primary@, d@, primary_is_managed, text::views(files@), windows));
    } else {
        assert(text::views(also@) =~= Seq::<Seq<char>>::empty());
    }
    if !replace_exe_dir {
        return also;
    }
    add_new(&mut also, text::owned(exe));
    if let Some(d) = exe_dir {
        let a = config::join_path(d, first_name, windows);
        let b = config::join_path(d, second_name, windows);
        if !text::str_eq(a.as_str(), exe) && !text::str_eq(a.as_str(), primary) && listed(files, a.as_str()) {
            add_new(&mut also, a);
        }
        if !text::str_eq(b.as_str(), exe) && !text::str_eq(b.as_str(), primary) && listed(files, b.as_str()) {
            add_new(&mut also, b);
        }
    }
    also
}

// ---------------------------------------------------------------------------------
// Release assets and checksums
// ---------------------------------------------------------------------------------

/// The release-asset name for a platform (`std::env::consts::OS` and `ARCH`
/// spellings), or `None` where the release builds nothing: only Windows has a 32-bit
/// build.
pub open spec fn asset_name(version: Seq<char>, os: Seq<char>, arch: Seq<char>) -> Option<
    Seq<char>,
> {
    let win = os == "windows"@;
    let mac = os == "macos"@;
    let lin = os == "linux"@;
    let x64 = arch == "x86_64"@;
    let arm = arch == "aarch64"@;
    let x86 = arch == "x86"@;
    if !(win || mac || lin) || !(x64 || arm || x86) || (x86 && !win) {
        None
    } else {
        Some(
            "dev-prune-v"@ + version + "-"@ + (if win {
                "windows"@
            } else if mac {
                "darwin"@
            } else {
                "linux"@
            }) + "-"@ + (if x64 {
                "x64"@
            } else if arm {
                "arm64"@
            } else {
                "x86"@
            }) + (if win {
                ".exe"@
            } else {
                seq![]
            }),
        )
    }
}

/// The release-asset name for one platform, without the `.sha256` suffix.
pub fn release_asset_name(version: &str, os: &str, arch: &str) -> (r: Option<String>)
    ensures
        text::opt_view(r) == asset_name(version@, os@, arch@),
{
    let ov = text::chars_of(os);
    let av = text::chars_of(arch);
    let win = text::chars_eq_str(&ov, "windows");
    let mac = text::chars_eq_str(&ov, "macos");
    let lin = text::chars_eq_str(&ov, "linux");
    let x64 = text::chars_eq_str(&av, "x86_64");
    let arm = text::chars_eq_str(&av, "aarch64");
    let x86 = text::chars_eq_str(&av, "x86");
    if !(win || mac || lin) || !(x64 || arm || x86) || (x86 && !win) {
        return None;
    }
    let mut out: Vec<char> = Vec::new();
    text::push_str(&mut out, "dev-prune-v");
    text::push_str(&mut out, version);
    text::push_str(&mut out, "-");
    if win {
        text::push_str(&mut out, "windows");
    } else if mac {
        text::push_str(&mut out, "darwin");
    } else {
        text::push_str(&mut out, "linux");
    }
    text::push_str(&mut out, "-");
    if x64 {
        text::push_str(&mut out, "x64");
    } else if arm {
        text::push_str(&mut out, "arm64");
    } else {
        text::push_str(&mut out, "x86");
    }
    if win {
        text::push_str(&mut out, ".exe");
    }
    Some(text::string_of(&out))
}

/// Why a checksum sidecar holding no words is refused.
pub const SIDECAR_EMPTY: &'static str = "the checksum sidecar was empty";

/// Why a checksum sidecar whose first word is no digest is refused.
pub const SIDECAR_NOT_A_DIGEST: &'static str = "the checksum sidecar did not contain a SHA-256 digest";

/// Whether text is a SHA-256 digest in hex: 64 hex digits.
pub open spec fn is_digest(h: Seq<char>) -> bool {
    h.len() == 64 && forall|i: int| 0 <= i < h.len() ==> text::is_hex_digit(#[trigger] h[i])
}

/// What a `sha256sum`-format sidecar says: its first word, lower-cased, when that is a
/// digest.
pub open spec fn sidecar_digest(body: Seq<char>) -> Result<Seq<char>, Seq<char>> {
    let words = text::words(body);
    if words.len() == 0 {
        Err(SIDECAR_EMPTY@)
    } else if is_digest(text::ascii_lowercase(words[0])) {
        Ok(text::ascii_lowercase(words[0]))
    } else {
        Err(SIDECAR_NOT_A_DIGEST@)
    }
}

/// The view of a text result.
pub open spec fn result_view(r: Result<String, String>) -> Result<Seq<char>, Seq<char>> {
    match r {
        Ok(s) => Ok(s@),
        Err(e) => Err(e@),
    }
}

fn all_hex(h: &[char]) -> (r: bool)
    ensures
        r == (forall|i: int| 0 <= i < h@.len() ==> text::is_hex_digit(#[trigger] h@[i])),
{
    let mut i: usize = 0;
    while i < h.len()
        invariant
            i <= h.len(),
            forall|j: int| 0 <= j < i ==> text::is_hex_digit(#[trigger] h@[j]),
        decreases h.len() - i,
    {
        let c = h[i];
        if !(('0' <= c && c <= '9') || ('a' <= c && c <= 'f') || ('A' <= c && c <= 'F')) {
            assert(!text::is_hex_digit(h@[i as int]));
            return false;
        }
        i = i + 1;
    }
    true
}

/// Read the digest out of a `.sha256` sidecar: the hex digest, two spaces, the file
/// name. Validated rather than trusted, because what this guards against is a 404 page
/// or a proxy error arriving where the sidecar should be, which compared against a
/// digest would read as tampering.
pub fn parse_sha256_sidecar(body: &str) -> (r: Result<String, String>)
    ensures
        result_view(r) == sidecar_digest(body@),
{
    let b = text::chars_of(body);
    let words = text::words_of(&b);
    if words.len() == 0 {
        return Err(text::owned(SIDECAR_EMPTY));
    }
    assert(text::seqs_of(words@)[0] == words@[0]@);
    let hash = text::ascii_lowercase_chars(&words[0]);
    if hash.len() != 64 || !all_hex(&hash) {
        return Err(text::owned(SIDECAR_NOT_A_DIGEST));
    }
    Ok(text::string_of(&hash))
}

/// A name for the SHA-256 digest of a byte sequence.
pub uninterp spec fn sha256_digest(bytes: Seq<u8>) -> Seq<u8>;

/// `sha2::Sha256::digest`: the SHA-256 digest of the bytes, which is 32 bytes long.
#[verifier::external_body]
fn sha256(bytes: &[u8]) -> (d: Vec<u8>)
    ensures
        d@ == sha256_digest(bytes@),
        d@.len() == 32,
{
    <sha2::Sha256 as Digest>::digest(bytes).to_vec()
}

/// The lower-case hex digit for a value below 16.
pub open spec fn hex_digit(n: u8) -> char {
    if n < 10 {
        ((n + 48) as u32) as char
    } else {
        ((n + 87) as u32) as char
    }
}

/// Bytes as lower-case hex, two digits each.
pub open spec fn hex_of(b: Seq<u8>) -> Seq<char>
    decreases b.len(),
{
    if b.len() == 0 {
        seq![]
    } else {
        hex_of(b.drop_last()) + seq![hex_digit(b.last() / 16), hex_digit(b.last() % 16)]
    }
}

fn hex_char(n: u8) -> (c: char)
    requires
        n < 16,
    ensures
        c == hex_digit(n),
{
    let code: u32 = if n < 10 {
        (n as u32) + 48
    } else {
        (n as u32) + 87
    };
    let c = text::char_from_ascii(code);
    c
}

/// Bytes as lower-case hex.
pub fn hex_string(b: &[u8]) -> (r: Vec<char>)
    ensures
        r@ == hex_of(b@),
{
    let mut out: Vec<char> = Vec::new();
    let mut i: usize = 0;
    while i < b.len()
        invariant
            i <= b.len(),
            out@ == hex_of(b@.take(i as int)),
        decreases b.len() - i,
    {
        assert(b@.take(i + 1).drop_last() == b@.take(i as int));
        out.push(hex_char(b[i] / 16));
        out.push(hex_char(b[i] % 16));
        i = i + 1;
    }
    assert(b@.take(i as int) == b@);
    out
}

/// The lower-case hex SHA-256 of some bytes, as every published `.sha256` sidecar
/// spells it.
pub fn sha256_hex(bytes: &[u8]) -> (r: String)
    ensures
        r@ == hex_of(sha256_digest(bytes@)),
        r@.len() == 64,
{
    let d = sha256(bytes);
    let h = hex_string(&d);
    proof {
        lemma_hex_len(d@);
    }
    text::string_of(&h)
}

proof fn lemma_hex_len(b: Seq<u8>)
    ensures
        hex_of(b).len() == 2 * b.len(),
    decreases b.len(),
{
    if b.len() > 0 {
        lemma_hex_len(b.drop_last());
    }
}

/// Why a download whose digest differs from the published one is refused.
pub open spec fn mismatch_text(asset: Seq<char>, expected: Seq<char>, actual: Seq<char>) -> Seq<
    char,
> {
    "checksum mismatch for "@ + asset + "\n  expected "@ + expected + "\n  got      "@ + actual
        + "\nThe download was corrupted or tampered with; nothing was installed."@
}

/// Check downloaded release bytes against the digest published beside them: nothing
/// is installed unless the SHA-256 of the bytes, in lower-case hex, is the expected one.
pub fn check_download(bytes: &[u8], expected: &str, asset: &str) -> (r: Result<(), String>)
    ensures
        match r {
            Ok(()) => hex_of(sha256_digest(bytes@)) == expected@,
            Err(m) => hex_of(sha256_digest(bytes@)) != expected@ && m@ == mismatch_text(
                asset@,
                expected@,
                hex_of(sha256_digest(bytes@)),
            ),
        },
{
    let digest = sha256(bytes);
    let actual = hex_string(&digest);
    let exp = text::chars_of(expected);
    if text::chars_eq(&actual, &exp) {
        return Ok(());
    }
    let mut m: Vec<char> = Vec::new();
    text::push_str(&mut m, "checksum mismatch for ");
    text::push_str(&mut m, asset);
    text::push_str(&mut m, "\n  expected ");
    text::push_str(&mut m, expected);
    text::push_str(&mut m, "\n  got      ");
    text::push_all(&mut m, &actual);
    text::push_str(&mut m, "\nThe download was corrupted or tampered with; nothing was installed.");
    Err(text::string_of(&m))
}

// ---------------------------------------------------------------------------------
// The latest release
// ---------------------------------------------------------------------------------

/// A name for what a release-API response says its `tag_name` is: `None` when the
/// body is not JSON, `Some(None)` when it has no string `tag_name`.
pub uninterp spec fn json_tag_name(body: Seq<char>) -> Option<Option<Seq<char>>>;

/// `serde_json::from_str` into a JSON value, then the string under `tag_name`: a
/// function of the body alone, named by [`json_tag_name`].
#[verifier::external_body]
fn parse_tag_name(body: &str) -> (r: Option<Option<String>>)
    ensures
        match r {
            Some(Some(t)) => json_tag_name(body@) == Some(Some(t@)),
            Some(None) => json_tag_name(body@) == Some(None::<Seq<char>>),
            None => json_tag_name(body@) is None,
        },
{
    match serde_json::from_str::<serde_json::Value>(body) {
        Ok(v) => Some(v.get("tag_name").and_then(|t| t.as_str()).map(|t| t.to_string())),
        Err(_) => None,
    }
}

/// The version a release tag names: the tag without its leading `v`s; the reason
/// when the response was no JSON or carried no tag.
pub open spec fn tag_version(parsed: Option<Option<Seq<char>>>) -> Result<Seq<char>, Seq<char>> {
    match parsed {
        None => Err("the response was not JSON"@),
        Some(None) => Err("the response carried no tag_name"@),
        Some(Some(t)) => Ok(text::trim_start_matches(t, 'v')),
    }
}

/// The version a parsed release response names.
pub fn version_from_tag(parsed: Option<Option<&str>>) -> (r: Result<String, String>)
    ensures
        result_view(r) == tag_version(
            match parsed {
                Some(Some(t)) => Some(Some(t@)),
                Some(None) => Some(None),
                None => None,
            },
        ),
{
    match parsed {
        None => Err(text::owned("the response was not JSON")),
        Some(None) => Err(text::owned("the response carried no tag_name")),
        Some(Some(t)) => {
            let v = text::chars_of(t);
            let r = text::trim_start_matches_chars(&v, 'v');
            Ok(text::string_of(&r))
        },
    }
}

/// The version of the latest release, from the release API's response body.
pub fn latest_release_version(body: &str) -> (r: Result<String, String>)
    ensures
        result_view(r) == tag_version(json_tag_name(body@)),
{
    match parse_tag_name(body) {
        None => version_from_tag(None),
        Some(None) => version_from_tag(Some(None)),
        Some(Some(t)) => version_from_tag(Some(Some(t.as_str()))),
    }
}

} // verus!
