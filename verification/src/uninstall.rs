//! Uninstalling: which file names belong to the tool, how paths are compared while
//! sweeping for stray copies, and what a locked binary is renamed to.
//!
//! Every function takes whether it is deciding for Windows, where the tool ships as
//! `.exe`s with shims beside them and paths compare without case.
use vstd::prelude::*;

use crate::config;
use crate::engine;
use crate::text;

verus! {

broadcast use vstd::seq_lib::group_seq_properties;

/// Where the Unix install script is published.
pub const INSTALL_SH_URL: &'static str = "https://devprune.vkrishna04.me/install.sh";

/// Where the Windows install script is published.
pub const INSTALL_PS1_URL: &'static str = "https://devprune.vkrishna04.me/install.ps1";

/// The stems the tool is installed under: the CLI, its short name, and the windowless
/// scheduler twin.
pub open spec fn stems() -> Seq<Seq<char>> {
    seq!["dev-prune"@, "devp"@, "devpw"@]
}

/// The names one stem can appear under on Windows: the binary, npm's shims, the file an
/// update renames aside, the bytes an update stages, and the bare sh shim.
pub open spec fn windows_names(stem: Seq<char>) -> Seq<Seq<char>> {
    seq![
        stem + ".exe"@,
        stem + ".cmd"@,
        stem + ".ps1"@,
        stem + ".bat"@,
        stem + ".exe.old"@,
        stem + ".new"@,
        stem,
    ]
}

/// The names one stem can appear under elsewhere: the binary and its staging name.
pub open spec fn unix_names(stem: Seq<char>) -> Seq<Seq<char>> {
    seq![stem, stem + ".new"@]
}

/// Every file name the sweep looks for, stem by stem.
pub open spec fn sweep_list(windows: bool) -> Seq<Seq<char>> {
    if windows {
        windows_names("dev-prune"@) + windows_names("devp"@) + windows_names("devpw"@)
    } else {
        unix_names("dev-prune"@) + unix_names("devp"@) + unix_names("devpw"@)
    }
}

fn push_joined(v: &mut Vec<String>, stem: &str, suffix: &str)
    ensures
        text::views(final(v)@) == text::views(old(v)@).push(stem@ + suffix@),
{
    let mut c: Vec<char> = Vec::new();
    text::push_str(&mut c, stem);
    text::push_str(&mut c, suffix);
    let ghost before = v@;
    v.push(text::string_of(&c));
    assert(text::views(v@) =~= text::views(before).push(stem@ + suffix@));
}

fn push_names(v: &mut Vec<String>, stem: &str, windows: bool)
    ensures
        text::views(final(v)@) == text::views(old(v)@) + if windows {
            windows_names(stem@)
        } else {
            unix_names(stem@)
        },
{
    let ghost before = text::views(v@);
    if windows {
        push_joined(v, stem, ".exe");
        push_joined(v, stem, ".cmd");
        push_joined(v, stem, ".ps1");
        push_joined(v, stem, ".bat");
        push_joined(v, stem, ".exe.old");
        push_joined(v, stem, ".new");
        push_joined(v, stem, "");
        proof {
            reveal_strlit("");
        }
        assert(stem@ + ""@ =~= stem@);
        assert(text::views(v@) =~= before + windows_names(stem@));
    } else {
        push_joined(v, stem, "");
        push_joined(v, stem, ".new");
        proof {
            reveal_strlit("");
        }
        assert(stem@ + ""@ =~= stem@);
        assert(text::views(v@) =~= before + unix_names(stem@));
    }
}

/// The file names one of the tool's binaries can appear under.
pub fn sweep_names(windows: bool) -> (r: Vec<String>)
    ensures
        text::views(r@) == sweep_list(windows),
{
    let mut names: Vec<String> = Vec::new();
    assert(text::views(names@) =~= Seq::<Seq<char>>::empty());
    push_names(&mut names, "dev-prune", windows);
    push_names(&mut names, "devp", windows);
    push_names(&mut names, "devpw", windows);
    assert(text::views(names@) =~= sweep_list(windows));
    names
}

/// One canonical string per path, so `C:\X\Bin\` and `c:\x\bin` count once: `/` for
/// `\`, no trailing separators, and case-folded on Windows.
pub open spec fn canon_text(path: Seq<char>, windows: bool) -> Seq<char> {
    let a = text::trim_end_matches(text::replace_all(path, "\\"@, "/"@), '/');
    if windows {
        text::lowercase(a)
    } else {
        a
    }
}

/// One canonical string per path.
pub fn canon_key(path: &str, windows: bool) -> (r: String)
    ensures
        r@ == canon_text(path@, windows),
{
    proof {
        reveal_strlit("\\");
    }
    let p = text::chars_of(path);
    let a = text::replace_str(&p, "\\", "/");
    let b = text::trim_end_matches_chars(&a, '/');
    let s = text::string_of(&b);
    if windows {
        text::to_lowercase(s.as_str())
    } else {
        s
    }
}

/// The on-disk file name for one of the binaries.
pub open spec fn exe_file_name(stem: Seq<char>, windows: bool) -> Seq<char> {
    if windows {
        stem + ".exe"@
    } else {
        stem
    }
}

/// The on-disk file name for one of the binaries, on the given platform.
pub fn exe_name(stem: &str, windows: bool) -> (r: String)
    ensures
        r@ == exe_file_name(stem@, windows),
{
    let mut v: Vec<char> = Vec::new();
    text::push_str(&mut v, stem);
    if windows {
        text::push_str(&mut v, ".exe");
    }
    text::string_of(&v)
}

/// Whether a deletion failure, by its OS error code, means the file is in use right
/// now: 5 is `ERROR_ACCESS_DENIED`, what deleting the running image reports, and 32
/// `ERROR_SHARING_VIOLATION`.
pub fn is_in_use_error(os_error: Option<i32>) -> (r: bool)
    ensures
        r == (os_error == Some(5i32) || os_error == Some(32i32)),
{
    match os_error {
        Some(5) | Some(32) => true,
        _ => false,
    }
}

/// Whether an executable runs out of a Cargo build directory.
pub open spec fn in_build_dir(exe: Seq<char>) -> bool {
    let p = text::replace_all(exe, "\\"@, "/"@);
    text::contains(p, "/target/debug/"@) || text::contains(p, "/target/release/"@)
}

/// Whether this executable is running out of a Cargo build directory.
pub fn is_dev_build(exe: &str) -> (r: bool)
    ensures
        r == in_build_dir(exe@),
{
    proof {
        reveal_strlit("\\");
    }
    let p = text::chars_of(exe);
    let a = text::replace_str(&p, "\\", "/");
    text::contains_str(&a, "/target/debug/") || text::contains_str(&a, "/target/release/")
}

/// The install one-liner for the platform, for the goodbye message.
pub open spec fn reinstall_text(windows: bool) -> Seq<char> {
    if windows {
        "iwr -useb "@ + INSTALL_PS1_URL@ + " | iex"@
    } else {
        "curl -fsSL "@ + INSTALL_SH_URL@ + " | sh"@
    }
}

/// The install one-liner for the platform.
pub fn reinstall_hint(windows: bool) -> (r: String)
    ensures
        r@ == reinstall_text(windows),
{
    let mut v: Vec<char> = Vec::new();
    if windows {
        text::push_str(&mut v, "iwr -useb ");
        text::push_str(&mut v, INSTALL_PS1_URL);
        text::push_str(&mut v, " | iex");
    } else {
        text::push_str(&mut v, "curl -fsSL ");
        text::push_str(&mut v, INSTALL_SH_URL);
        text::push_str(&mut v, " | sh");
    }
    text::string_of(&v)
}

/// The name a locked file is renamed to: `.old` after its whole name, so `devp.exe`
/// becomes `devp.exe.old` and `devp` becomes `devp.old`.
pub open spec fn aside_path(path: Seq<char>) -> Seq<char> {
    path + ".old"@
}

/// The name a locked file (one that names a file) is renamed to; that name is on the
/// sweep list, so the next install or uninstall clears it.
pub fn aside_name(path: &str) -> (r: String)
    ensures
        r@ == aside_path(path@),
{
    let mut v: Vec<char> = Vec::new();
    text::push_str(&mut v, path);
    text::push_str(&mut v, ".old");
    text::string_of(&v)
}

/// What a locked binary is renamed aside to is a name the sweep looks for, so the
/// residue never outlives the next install or uninstall.
pub proof fn law_the_aside_name_is_swept(stem_index: int)
    requires
        0 <= stem_index < 3,
    ensures
        sweep_list(true).contains(aside_path(exe_file_name(stems()[stem_index], true))),
{
    let stem = stems()[stem_index];
    assert(aside_path(exe_file_name(stem, true)) =~= stem + ".exe.old"@) by {
        reveal_strlit(".exe");
        reveal_strlit(".old");
        reveal_strlit(".exe.old");
    }
    let l = sweep_list(true);
    assert(l[7 * stem_index + 4] == stem + ".exe.old"@);
}


// ---------------------------------------------------------------------------------
// Stray copies
// ---------------------------------------------------------------------------------

/// One copy of the tool found somewhere other than the managed directory, and the
/// install channel that owns it, by its label.
pub struct StrayCopy {
    /// Where the copy is.
    pub path: String,
    /// The channel that put it there.
    pub channel: String,
    /// Whether that channel keeps a record of the files it installs, so its own
    /// uninstall is what removes them.
    pub owns_its_files: bool,
}

/// The channels among the strays, each once, in the order they first turn up.
pub open spec fn channels_of(strays: Seq<StrayCopy>) -> Seq<Seq<char>>
    decreases strays.len(),
{
    if strays.len() == 0 {
        seq![]
    } else {
        let rest = channels_of(strays.drop_last());
        if rest.contains(strays.last().channel@) {
            rest
        } else {
            rest.push(strays.last().channel@)
        }
    }
}

/// The paths of the strays a channel owns, in discovery order.
pub open spec fn paths_owned_by(strays: Seq<StrayCopy>, channel: Seq<char>) -> Seq<Seq<char>>
    decreases strays.len(),
{
    if strays.len() == 0 {
        seq![]
    } else {
        let rest = paths_owned_by(strays.drop_last(), channel);
        if strays.last().channel@ == channel {
            rest.push(strays.last().path@)
        } else {
            rest
        }
    }
}

/// The abstract value of a grouping: each channel with the paths it owns.
pub open spec fn groups_view(g: Seq<(String, Vec<String>)>) -> Seq<(Seq<char>, Seq<Seq<char>>)> {
    g.map_values(|p: (String, Vec<String>)| (p.0@, text::views(p.1@)))
}

/// The grouping the strays call for: one group per channel, in first-appearance order,
/// holding that channel's paths in discovery order.
pub open spec fn grouped(strays: Seq<StrayCopy>) -> Seq<(Seq<char>, Seq<Seq<char>>)> {
    channels_of(strays).map_values(|c: Seq<char>| (c, paths_owned_by(strays, c)))
}

fn find_channel(groups: &Vec<(String, Vec<String>)>, channel: &str) -> (r: Option<usize>)
    ensures
        match r {
            Some(j) => j < groups@.len() && groups@[j as int].0@ == channel@,
            None => forall|k: int| 0 <= k < groups@.len() ==> groups@[k].0@ != channel@,
        },
{
    let mut j: usize = 0;
    while j < groups.len()
        invariant
            j <= groups@.len(),
            forall|k: int| 0 <= k < j ==> groups@[k].0@ != channel@,
        decreases groups@.len() - j,
    {
        if text::str_eq(groups[j].0.as_str(), channel) {
            return Some(j);
        }
        j = j + 1;
    }
    None
}

proof fn lemma_channels_distinct(strays: Seq<StrayCopy>)
    ensures
        channels_of(strays).no_duplicates(),
    decreases strays.len(),
{
    if strays.len() > 0 {
        lemma_channels_distinct(strays.drop_last());
    }
}

proof fn lemma_unowned_paths(strays: Seq<StrayCopy>, c: Seq<char>)
    requires
        !channels_of(strays).contains(c),
    ensures
        paths_owned_by(strays, c) == Seq::<Seq<char>>::empty(),
    decreases strays.len(),
{
    if strays.len() > 0 {
        let rest = channels_of(strays.drop_last());
        if rest.contains(c) {
            let k = choose|k: int| 0 <= k < rest.len() && rest[k] == c;
            if rest.contains(strays.last().channel@) {
                assert(channels_of(strays)[k] == c);
            } else {
                assert(channels_of(strays)[k] == c);
            }
        }
        if strays.last().channel@ == c {
            if rest.contains(c) {
            } else {
                assert(channels_of(strays).last() == c);
            }
        }
        lemma_unowned_paths(strays.drop_last(), c);
    }
}

proof fn lemma_grouped_step(strays: Seq<StrayCopy>, i: int)
    requires
        0 <= i < strays.len(),
    ensures
        channels_of(strays.take(i + 1)) == (if channels_of(strays.take(i)).contains(strays[i].channel@) {
            channels_of(strays.take(i))
        } else {
            channels_of(strays.take(i)).push(strays[i].channel@)
        }),
        forall|c: Seq<char>| #[trigger] paths_owned_by(strays.take(i + 1), c) == (if strays[i].channel@ == c {
            paths_owned_by(strays.take(i), c).push(strays[i].path@)
        } else {
            paths_owned_by(strays.take(i), c)
        }),
{
    assert(strays.take(i + 1).drop_last() == strays.take(i));
    assert(strays.take(i + 1).last() == strays[i]);
}

/// Group the strays by the channel that owns them, keeping discovery order, so each
/// package manager is told once however many of its files turned up.
pub fn group_by_channel(strays: Vec<StrayCopy>) -> (r: Vec<(String, Vec<String>)>)
    ensures
        groups_view(r@) == grouped(strays@),
{
    let ghost all = strays@;
    let mut groups: Vec<(String, Vec<String>)> = Vec::new();
    let mut i: usize = 0;
    while i < strays.len()
        invariant
            i <= strays@.len(),
            all == strays@,
            groups_view(groups@) == grouped(all.take(i as int)),
        decreases strays@.len() - i,
    {
        proof {
            lemma_grouped_step(all, i as int);
            lemma_channels_distinct(all.take(i as int));
        }
        let ghost before = groups_view(groups@);
        let ghost cs = channels_of(all.take(i as int));
        let ghost before_groups = groups@;
        let s = &strays[i];
        match find_channel(&groups, s.channel.as_str()) {
            Some(j) => {
                assert(before.len() == before_groups.len());
                assert(before.len() == cs.len());
                assert(before[j as int].0 == before_groups[j as int].0@);
                assert(grouped(all.take(i as int))[j as int].0 == cs[j as int]);
                let mut g = groups.remove(j);
                let ghost old_paths = text::views(g.1@);
                g.1.push(s.path.clone());
                assert(text::views(g.1@) =~= old_paths.push(s.path@));
                groups.insert(j, g);
                assert(before[j as int].0 == cs[j as int]);
                assert(cs[j as int] == s.channel@);
                assert(cs.contains(s.channel@));
                assert(groups_view(groups@) =~= grouped(all.take(i + 1))) by {
                    assert forall|k: int| 0 <= k < cs.len() implies #[trigger] groups_view(groups@)[k]
                        == grouped(all.take(i + 1))[k] by {
                        if k != j {
                            assert(groups_view(groups@)[k] == before[k]);
                            assert(cs[k] != s.channel@);
                        }
                    }
                }
            },
            None => {
                assert(!cs.contains(s.channel@)) by {
                    if cs.contains(s.channel@) {
                        let k = choose|k: int| 0 <= k < cs.len() && cs[k] == s.channel@;
                        assert(before.len() == before_groups.len());
                        assert(before[k].0 == before_groups[k].0@);
                        assert(grouped(all.take(i as int))[k].0 == cs[k]);
                    }
                }
                let mut paths: Vec<String> = Vec::new();
                paths.push(s.path.clone());
                assert(text::views(paths@) =~= seq![s.path@]);
                groups.push((s.channel.clone(), paths));
                proof {
                    lemma_unowned_paths(all.take(i as int), s.channel@);
                }
                assert(before.len() == before_groups.len());
                assert(before.len() == cs.len());
                assert(groups@.len() == cs.len() + 1);
                assert(forall|k: int| 0 <= k < cs.len() ==> groups@[k] == before_groups[k]);
                assert(groups_view(groups@) =~= grouped(all.take(i + 1))) by {
                    assert forall|k: int| 0 <= k < cs.len() + 1 implies #[trigger] groups_view(groups@)[k]
                        == grouped(all.take(i + 1))[k] by {
                        if k < cs.len() {
                            assert(groups_view(groups@)[k] == before[k]);
                            assert(cs[k] != s.channel@);
                        }
                    }
                }
            },
        }
        i = i + 1;
    }
    assert(all.take(i as int) == all);
    groups
}

/// Grouping strays by channel names each channel once, and every stray lands in the
/// group of the channel that owns it: a package manager is told once, however many of
/// its files turned up, and none of them is forgotten.
pub proof fn law_each_channel_is_told_once(strays: Seq<StrayCopy>)
    ensures
        channels_of(strays).no_duplicates(),
        forall|k: int| 0 <= k < strays.len() ==> {
            &&& channels_of(strays).contains(#[trigger] strays[k].channel@)
            &&& paths_owned_by(strays, strays[k].channel@).contains(strays[k].path@)
        },
    decreases strays.len(),
{
    lemma_channels_distinct(strays);
    if strays.len() > 0 {
        let rest = strays.drop_last();
        law_each_channel_is_told_once(rest);
        assert forall|k: int| 0 <= k < strays.len() implies {
            &&& channels_of(strays).contains(#[trigger] strays[k].channel@)
            &&& paths_owned_by(strays, strays[k].channel@).contains(strays[k].path@)
        } by {
            let c = strays[k].channel@;
            if k < rest.len() {
                assert(rest[k] == strays[k]);
                let j = choose|j: int| 0 <= j < channels_of(rest).len() && channels_of(rest)[j] == c;
                assert(channels_of(strays)[j] == c);
                let p = choose|p: int| 0 <= p < paths_owned_by(rest, c).len() && paths_owned_by(rest, c)[p] == strays[k].path@;
                assert(paths_owned_by(strays, c)[p] == strays[k].path@);
            } else {
                if channels_of(rest).contains(c) {
                } else {
                    assert(channels_of(strays).last() == c);
                }
                assert(paths_owned_by(strays, c).last() == strays[k].path@);
            }
        }
    }
}

// ---------------------------------------------------------------------------------
// The binaries themselves
// ---------------------------------------------------------------------------------

/// Where the windowless scheduler twin ships on Windows, beside the pair.
pub const WINDOWS_WINDOWLESS_BIN: &'static str = "devpw.exe";

/// The files the binary removal considers, in order, and whether the running
/// executable is a development build.
pub struct BinaryCandidates {
    /// Paths to delete if they are files.
    pub paths: Vec<String>,
    /// The running executable is a Cargo build output, so its pair was left out.
    pub dev_build: bool,
}

/// The managed pair (and on Windows the windowless twin) in the managed directory.
pub open spec fn managed_candidates(bin_dir: Seq<char>, windows: bool) -> Seq<Seq<char>> {
    let pair = seq![
        config::joined(bin_dir, exe_file_name("dev-prune"@, windows), windows),
        config::joined(bin_dir, exe_file_name("devp"@, windows), windows),
    ];
    if windows {
        pair.push(config::joined(bin_dir, WINDOWS_WINDOWLESS_BIN@, windows))
    } else {
        pair
    }
}

/// `list` with `p` appended unless it is already there.
pub open spec fn push_new(list: Seq<Seq<char>>, p: Seq<char>) -> Seq<Seq<char>> {
    if list.contains(p) {
        list
    } else {
        list.push(p)
    }
}

/// Everything the binary removal considers: the managed pair, then the pair beside the
/// running executable, unless that executable is a development build (the build being
/// worked on) or owned by a package manager (whose own uninstall removes it later).
pub open spec fn binary_candidate_list(
    bin_dir: Option<Seq<char>>,
    exe: Option<(Seq<char>, Seq<char>)>,
    manager_owned: bool,
    windows: bool,
) -> Seq<Seq<char>> {
    let managed = match bin_dir {
        Some(d) => managed_candidates(d, windows),
        None => seq![],
    };
    match exe {
        Some((path, dir)) => if in_build_dir(path) || manager_owned {
            managed
        } else {
            push_new(
                push_new(managed, config::joined(dir, exe_file_name("dev-prune"@, windows), windows)),
                config::joined(dir, exe_file_name("devp"@, windows), windows),
            )
        },
        None => managed,
    }
}

fn push_if_new(list: &mut Vec<String>, p: String)
    ensures
        text::views(final(list)@) == push_new(text::views(old(list)@), p@),
{
    let mut i: usize = 0;
    while i < list.len()
        invariant
            i <= list@.len(),
            forall|k: int| 0 <= k < i ==> list@[k]@ != p@,
        decreases list@.len() - i,
    {
        if text::str_eq(list[i].as_str(), p.as_str()) {
            assert(text::views(list@)[i as int] == p@);
            return;
        }
        i = i + 1;
    }
    let ghost before = text::views(list@);
    assert(!before.contains(p@)) by {
        if before.contains(p@) {
            let k = choose|k: int| 0 <= k < before.len() && before[k] == p@;
            assert(list@[k]@ == p@);
        }
    }
    list.push(p);
    assert(text::views(list@) =~= before.push(p@));
}

/// The binaries to remove. `bin_dir` is the managed directory, if it could be found;
/// `exe` the running executable and the directory it is in, if the OS reported them.
pub fn binary_candidates(
    bin_dir: Option<&str>,
    exe: Option<(&str, &str)>,
    manager_owned: bool,
    windows: bool,
) -> (r: BinaryCandidates)
    ensures
        text::views(r.paths@) == binary_candidate_list(
            match bin_dir {
                Some(d) => Some(d@),
                None => None,
            },
            match exe {
                Some((p, d)) => Some((p@, d@)),
                None => None,
            },
            manager_owned,
            windows,
        ),
        r.dev_build == match exe {
            Some((p, _)) => in_build_dir(p@),
            None => false,
        },
{
    let mut paths: Vec<String> = Vec::new();
    if let Some(d) = bin_dir {
        paths.push(config::join_path(d, exe_name("dev-prune", windows).as_str(), windows));
        paths.push(config::join_path(d, exe_name("devp", windows).as_str(), windows));
        if windows {
            paths.push(config::join_path(d, WINDOWS_WINDOWLESS_BIN, windows));
        }
        assert(text::views(paths@) =~= managed_candidates(d@, windows));
    } else {
        assert(text::views(paths@) =~= Seq::<Seq<char>>::empty());
    }
    let mut dev_build = false;
    if let Some((p, dir)) = exe {
        dev_build = is_dev_build(p);
        if !dev_build && !manager_owned {
            push_if_new(&mut paths, config::join_path(dir, exe_name("dev-prune", windows).as_str(), windows));
            push_if_new(&mut paths, config::join_path(dir, exe_name("devp", windows).as_str(), windows));
        }
    }
    BinaryCandidates { paths, dev_build }
}

/// Whether the managed `bin` directory, still there after a light uninstall because a
/// locked binary kept it from emptying, is handed to the deletion helper: only when
/// the helper has files to delete first.
pub fn bin_dir_goes_to_helper(deep: bool, is_dir: bool, removal_failed: bool, pending_files: usize) -> (r: bool)
    ensures
        r == (!deep && is_dir && removal_failed && pending_files > 0),
{
    !deep && is_dir && removal_failed && pending_files > 0
}

/// What the sweep does with the copies one channel owns.
#[derive(Clone, Copy, PartialEq, Eq, Structural, Debug)]
pub enum StrayPlan {
    /// A manager the tool cannot drive installed them: name it and leave the files,
    /// since deleting them would leave it listing a binary that is gone.
    LeaveForeign,
    /// Nothing holds a record of them: the files are the whole install, delete them.
    DeleteFiles,
    /// The owning manager is not on PATH, so its record could not be cleared: leave them.
    ManagerMissing,
    /// The running executable is among them on Windows, where a manager cannot remove
    /// a binary that is executing: schedule the manager's uninstall for after exit.
    Schedule,
    /// Run the manager's own uninstall now.
    RunManager,
}

/// The plan for one channel's copies: `has_command` is whether the tool knows the
/// channel's uninstall command, `may_delete_directly` whether nothing keeps a record
/// of its files, `manager_on_path` whether that command's program can be found, and
/// `running_among` whether the running executable is one of the copies.
pub open spec fn stray_plan_for(
    has_command: bool,
    may_delete_directly: bool,
    manager_on_path: bool,
    windows: bool,
    running_among: bool,
) -> StrayPlan {
    if !has_command {
        if may_delete_directly {
            StrayPlan::DeleteFiles
        } else {
            StrayPlan::LeaveForeign
        }
    } else if !manager_on_path {
        StrayPlan::ManagerMissing
    } else if windows && running_among {
        StrayPlan::Schedule
    } else {
        StrayPlan::RunManager
    }
}

/// What the sweep does with the copies one channel owns.
pub fn stray_plan(
    has_command: bool,
    may_delete_directly: bool,
    manager_on_path: bool,
    windows: bool,
    running_among: bool,
) -> (r: StrayPlan)
    ensures
        r == stray_plan_for(has_command, may_delete_directly, manager_on_path, windows, running_among),
{
    if !has_command {
        if may_delete_directly {
            StrayPlan::DeleteFiles
        } else {
            StrayPlan::LeaveForeign
        }
    } else if !manager_on_path {
        StrayPlan::ManagerMissing
    } else if windows && running_among {
        StrayPlan::Schedule
    } else {
        StrayPlan::RunManager
    }
}

/// The canonical keys of a list of paths.
pub open spec fn canon_keys(paths: Seq<Seq<char>>, windows: bool) -> Seq<Seq<char>> {
    paths.map_values(|p: Seq<char>| canon_text(p, windows))
}

/// The strays that are not already queued for the deletion helper, compared by
/// canonical key: a file queued there still exists, and finding it again would list
/// it twice.
pub open spec fn not_pending(strays: Seq<StrayCopy>, pending: Seq<Seq<char>>, windows: bool) -> Seq<StrayCopy>
    decreases strays.len(),
{
    if strays.len() == 0 {
        seq![]
    } else {
        let rest = not_pending(strays.drop_last(), pending, windows);
        if canon_keys(pending, windows).contains(canon_text(strays.last().path@, windows)) {
            rest
        } else {
            rest.push(strays.last())
        }
    }
}

/// Leave out the strays already queued for the deletion helper.
pub fn drop_pending(strays: Vec<StrayCopy>, pending: &Vec<String>, windows: bool) -> (r: Vec<StrayCopy>)
    ensures
        r@ == not_pending(strays@, text::views(pending@), windows),
{
    let ghost ps = text::views(pending@);
    let ghost keys = canon_keys(ps, windows);
    let mut pending_keys: Vec<String> = Vec::new();
    let mut j: usize = 0;
    while j < pending.len()
        invariant
            j <= pending@.len(),
            ps == text::views(pending@),
            keys == canon_keys(ps, windows),
            text::views(pending_keys@) == keys.take(j as int),
        decreases pending@.len() - j,
    {
        let ghost before = text::views(pending_keys@);
        let key = canon_key(pending[j].as_str(), windows);
        assert(key@ == canon_text(pending@[j as int]@, windows));
        pending_keys.push(key);
        assert(text::views(pending_keys@) =~= before.push(key@));
        assert(keys.len() == pending@.len());
        assert(ps[j as int] == pending@[j as int]@);
        assert(keys[j as int] == canon_text(ps[j as int], windows));
        assert(text::views(pending_keys@) =~= keys.take(j + 1));
        j = j + 1;
    }
    assert(keys.take(j as int) == keys);
    let ghost all = strays@;
    let mut out: Vec<StrayCopy> = Vec::new();
    let rest = strays;
    let n = rest.len();
    let mut pos: usize = 0;
    assert(all.take(0) =~= Seq::<StrayCopy>::empty());
    while pos < n
        invariant
            n == all.len(),
            pos <= n,
            rest@ == all,
            ps == text::views(pending@),
            keys == canon_keys(ps, windows),
            text::views(pending_keys@) == keys,
            out@ == not_pending(all.take(pos as int), ps, windows),
        decreases n - pos,
    {
        assert(all.take(pos + 1).drop_last() == all.take(pos as int));
        assert(all.take(pos + 1).last() == all[pos as int]);
        let key = canon_key(rest[pos].path.as_str(), windows);
        let mut found = false;
        let mut k: usize = 0;
        while k < pending_keys.len()
            invariant
                k <= pending_keys@.len(),
                found == (exists|m: int| 0 <= m < k && pending_keys@[m]@ == key@),
            decreases pending_keys@.len() - k,
        {
            if text::str_eq(pending_keys[k].as_str(), key.as_str()) {
                found = true;
            }
            k = k + 1;
        }
        assert(found == keys.contains(canon_text(all[pos as int].path@, windows))) by {
            if found {
                let m = choose|m: int| 0 <= m < pending_keys@.len() && pending_keys@[m]@ == key@;
                assert(keys[m] == text::views(pending_keys@)[m]);
            }
            if keys.contains(key@) {
                let m = choose|m: int| 0 <= m < keys.len() && keys[m] == key@;
                assert(text::views(pending_keys@)[m] == pending_keys@[m]@);
            }
        }
        assert(not_pending(all.take(pos + 1), ps, windows) == if keys.contains(canon_text(all[pos as int].path@, windows)) {
            not_pending(all.take(pos as int), ps, windows)
        } else {
            not_pending(all.take(pos as int), ps, windows).push(all[pos as int])
        });
        if !found {
            let s = &rest[pos];
            let copy = StrayCopy { path: s.path.clone(), channel: s.channel.clone(), owns_its_files: s.owns_its_files };
            assert(copy == all[pos as int]);
            out.push(copy);
        }
        pos = pos + 1;
    }
    assert(all.take(n as int) == all);
    out
}

/// The managers to remind the user about, after the sweep has seen the strays: every
/// channel that keeps records of its files and owns one of them, added once, in the
/// order they turned up.
pub open spec fn hints_after(hints: Seq<Seq<char>>, strays: Seq<StrayCopy>) -> Seq<Seq<char>>
    decreases strays.len(),
{
    if strays.len() == 0 {
        hints
    } else {
        let rest = hints_after(hints, strays.drop_last());
        if strays.last().owns_its_files {
            push_new(rest, strays.last().channel@)
        } else {
            rest
        }
    }
}

fn contains_str(list: &Vec<String>, s: &str) -> (r: bool)
    ensures
        r == text::views(list@).contains(s@),
{
    let mut i: usize = 0;
    while i < list.len()
        invariant
            i <= list@.len(),
            forall|k: int| 0 <= k < i ==> list@[k]@ != s@,
        decreases list@.len() - i,
    {
        if text::str_eq(list[i].as_str(), s) {
            assert(text::views(list@)[i as int] == s@);
            return true;
        }
        i = i + 1;
    }
    assert(!text::views(list@).contains(s@)) by {
        if text::views(list@).contains(s@) {
            let k = choose|k: int| 0 <= k < list@.len() && text::views(list@)[k] == s@;
            assert(list@[k]@ == s@);
        }
    }
    false
}

/// Remember every manager whose copy turned up, once each.
pub fn note_manager_hints(hints: &mut Vec<String>, strays: &Vec<StrayCopy>)
    ensures
        text::views(final(hints)@) == hints_after(text::views(old(hints)@), strays@),
{
    let ghost start = text::views(hints@);
    let mut i: usize = 0;
    while i < strays.len()
        invariant
            i <= strays@.len(),
            text::views(hints@) == hints_after(start, strays@.take(i as int)),
        decreases strays@.len() - i,
    {
        assert(strays@.take(i + 1).drop_last() == strays@.take(i as int));
        assert(strays@.take(i + 1).last() == strays@[i as int]);
        if strays[i].owns_its_files && !contains_str(hints, strays[i].channel.as_str()) {
            let ghost before = text::views(hints@);
            hints.push(strays[i].channel.clone());
            assert(text::views(hints@) =~= before.push(strays@[i as int].channel@));
        }
        i = i + 1;
    }
    assert(strays@.take(i as int) == strays@);
}

/// Remind the user about a manager whose uninstall was scheduled for after exit,
/// unless it is already on the list.
pub fn add_manager_hint(hints: &mut Vec<String>, channel: String)
    ensures
        text::views(final(hints)@) == push_new(text::views(old(hints)@), channel@),
{
    push_if_new(hints, channel);
}

/// A list without one name.
pub open spec fn without(list: Seq<Seq<char>>, name: Seq<char>) -> Seq<Seq<char>> {
    list.filter(|x: Seq<char>| x != name)
}

/// Drop a manager from the reminders once its own uninstall has run or is scheduled.
pub fn forget_manager_hint(hints: &mut Vec<String>, channel: &str)
    ensures
        text::views(final(hints)@) == without(text::views(old(hints)@), channel@),
{
    let ghost start = text::views(hints@);
    let mut kept: Vec<String> = Vec::new();
    let mut i: usize = 0;
    while i < hints.len()
        invariant
            i <= hints@.len(),
            start == text::views(hints@),
            text::views(kept@) == without(start.take(i as int), channel@),
        decreases hints@.len() - i,
    {
        assert(start.take(i + 1).drop_last() == start.take(i as int));
        reveal(Seq::filter);
        if !text::str_eq(hints[i].as_str(), channel) {
            let ghost before = text::views(kept@);
            kept.push(hints[i].clone());
            assert(text::views(kept@) =~= before.push(start[i as int]));
        }
        i = i + 1;
    }
    assert(start.take(i as int) == start);
    *hints = kept;
}

/// `cop` followed by `y` or `ies`, as the count asks.
pub open spec fn copies_word(n: nat) -> Seq<char> {
    if n == 1 {
        "copy"@
    } else {
        "copies"@
    }
}

/// The warning that opens the list of strays.
pub open spec fn found_strays_text(n: nat) -> Seq<char> {
    "Found "@ + text::decimal(n) + " more "@ + copies_word(n) + " of dev-prune, from other install channels:"@
}

/// The warning that opens the list of strays.
pub fn found_strays_line(n: u64) -> (r: String)
    ensures
        r@ == found_strays_text(n as nat),
{
    let mut v: Vec<char> = Vec::new();
    text::push_str(&mut v, "Found ");
    let d = text::decimal_chars(n);
    text::push_all(&mut v, &d);
    text::push_str(&mut v, " more ");
    text::push_str(&mut v, if n == 1 { "copy" } else { "copies" });
    text::push_str(&mut v, " of dev-prune, from other install channels:");
    text::string_of(&v)
}

/// The line that reports how many strays went.
pub open spec fn removed_strays_text(n: nat) -> Seq<char> {
    "Removed "@ + text::decimal(n) + " stray "@ + copies_word(n) + "."@
}

/// The line that reports how many strays went.
pub fn removed_strays_line(n: u64) -> (r: String)
    ensures
        r@ == removed_strays_text(n as nat),
{
    let mut v: Vec<char> = Vec::new();
    text::push_str(&mut v, "Removed ");
    let d = text::decimal_chars(n);
    text::push_all(&mut v, &d);
    text::push_str(&mut v, " stray ");
    text::push_str(&mut v, if n == 1 { "copy" } else { "copies" });
    text::push_str(&mut v, ".");
    text::string_of(&v)
}

/// Why a channel's copies were left: its manager is one the tool cannot drive.
pub open spec fn foreign_text(who: Seq<char>, n: nat) -> Seq<char> {
    who + " installed "@ + text::decimal(n) + " of the copies above, and dev-prune does not know "@ + who
        + "'s uninstall command. Left in place: deleting the file would leave "@ + who
        + " listing a binary that is gone."@
}

/// Why a channel's copies were left: its manager is one the tool cannot drive.
pub fn foreign_line(who: &str, n: u64) -> (r: String)
    ensures
        r@ == foreign_text(who@, n as nat),
{
    let mut v: Vec<char> = Vec::new();
    text::push_str(&mut v, who);
    text::push_str(&mut v, " installed ");
    let d = text::decimal_chars(n);
    text::push_all(&mut v, &d);
    text::push_str(&mut v, " of the copies above, and dev-prune does not know ");
    text::push_str(&mut v, who);
    text::push_str(&mut v, "'s uninstall command. Left in place: deleting the file would leave ");
    text::push_str(&mut v, who);
    text::push_str(&mut v, " listing a binary that is gone.");
    text::string_of(&v)
}

/// The closing line when every step succeeded.
pub open spec fn completion_text(deep: bool) -> Seq<char> {
    if deep {
        "Deep uninstall complete: program, integrations, configuration and registry removed."@
    } else {
        "Uninstall complete: program and integrations removed. Configuration and prune history preserved for a future reinstall."@
    }
}

/// The closing line when every step succeeded.
pub fn completion_line(deep: bool) -> (r: &'static str)
    ensures
        r@ == completion_text(deep),
{
    if deep {
        "Deep uninstall complete: program, integrations, configuration and registry removed."
    } else {
        "Uninstall complete: program and integrations removed. Configuration and prune history preserved for a future reinstall."
    }
}

/// The failure an uninstall ends with when something could not be removed: `None`
/// when nothing was left behind.
pub open spec fn left_behind_error(left: Seq<Seq<char>>) -> Option<Seq<char>> {
    if left.len() == 0 {
        None
    } else {
        Some("Uninstall finished, but "@ + engine::joined_with(left, " and "@) + " is still installed."@)
    }
}

/// The failure an uninstall ends with when something could not be removed.
pub fn left_behind_message(left: &Vec<String>) -> (r: Option<String>)
    ensures
        text::opt_view(r) == left_behind_error(text::views(left@)),
{
    if left.len() == 0 {
        return None;
    }
    let mut v: Vec<char> = Vec::new();
    text::push_str(&mut v, "Uninstall finished, but ");
    let j = engine::join_with(left, " and ");
    text::push_all(&mut v, &j);
    text::push_str(&mut v, " is still installed.");
    Some(text::string_of(&v))
}

/// The reminder for a manager whose record still lists the tool.
pub open spec fn unfinished_text(label: Seq<char>, command: Seq<char>) -> Seq<char> {
    label + " still lists dev-prune as installed — finish with `"@ + command + "` to clear its records."@
}

/// The reminder for a manager whose record still lists the tool.
pub fn unfinished_line(label: &str, command: &str) -> (r: String)
    ensures
        r@ == unfinished_text(label@, command@),
{
    let mut v: Vec<char> = Vec::new();
    text::push_str(&mut v, label);
    text::push_str(&mut v, " still lists dev-prune as installed — finish with `");
    text::push_str(&mut v, command);
    text::push_str(&mut v, "` to clear its records.");
    text::string_of(&v)
}

/// The warning a deep uninstall asks to be confirmed.
pub open spec fn deep_warning_text(repo_count: nat) -> Seq<char> {
    "This deletes the global config directory (including prune history) and removes `.devprune.json` from "@
        + text::decimal(repo_count) + " registered repositories."@
}

/// The warning a deep uninstall asks to be confirmed.
pub fn deep_warning(repo_count: u64) -> (r: String)
    ensures
        r@ == deep_warning_text(repo_count as nat),
{
    let mut v: Vec<char> = Vec::new();
    text::push_str(&mut v, "This deletes the global config directory (including prune history) and removes `.devprune.json` from ");
    let d = text::decimal_chars(repo_count);
    text::push_all(&mut v, &d);
    text::push_str(&mut v, " registered repositories.");
    text::string_of(&v)
}

/// The warning over the items a running uninstall could not remove from inside itself.
pub open spec fn manual_removal_heading_text(n: nat) -> Seq<char> {
    text::decimal(n) + " item(s) were open in this process and could not be removed from inside it. Delete them once this command has exited, or restart — from an elevated shell Windows would have taken them at the next boot on its own."@
}

/// The warning over the items a running uninstall could not remove from inside itself.
pub fn manual_removal_heading(n: u64) -> (r: String)
    ensures
        r@ == manual_removal_heading_text(n as nat),
{
    let mut v = text::decimal_chars(n);
    text::push_str(&mut v, " item(s) were open in this process and could not be removed from inside it. Delete them once this command has exited, or restart — from an elevated shell Windows would have taken them at the next boot on its own.");
    text::string_of(&v)
}

/// The PowerShell line that removes one left-over item by hand: the path taken
/// literally, in single quotes with each quote doubled, so it can be pasted as it is.
pub open spec fn manual_removal_command_text(path: Seq<char>) -> Seq<char> {
    "Remove-Item -LiteralPath '"@ + text::replace_all(path, "'"@, "''"@) + "' -Recurse -Force"@
}

/// The PowerShell line that removes one left-over item by hand.
pub fn manual_removal_command(path: &str) -> (r: String)
    ensures
        r@ == manual_removal_command_text(path@),
{
    proof {
        reveal_strlit("'");
    }
    let p = text::chars_of(path);
    let quoted = text::replace_str(&p, "'", "''");
    let mut v: Vec<char> = Vec::new();
    text::push_str(&mut v, "Remove-Item -LiteralPath '");
    text::push_all(&mut v, &quoted);
    text::push_str(&mut v, "' -Recurse -Force");
    text::string_of(&v)
}

/// The canonical keys of a list of paths.
pub open spec fn keys_view(dirs: Seq<Seq<char>>, windows: bool) -> Seq<Seq<char>> {
    dirs.map_values(|d: Seq<char>| canon_text(d, windows))
}

/// The directories a sweep for stray copies looks in, in order: each once by its
/// canonical key (the first spelling kept), and never the managed directory, whose
/// copies are the install itself rather than strays.
pub open spec fn swept_dirs(dirs: Seq<Seq<char>>, managed: Option<Seq<char>>, windows: bool) -> Seq<
    Seq<char>,
>
    decreases dirs.len(),
{
    if dirs.len() == 0 {
        seq![]
    } else {
        let prev = dirs.drop_last();
        let k = canon_text(dirs.last(), windows);
        let rest = swept_dirs(prev, managed, windows);
        let is_managed = match managed {
            Some(m) => canon_text(m, windows) == k,
            None => false,
        };
        if keys_view(prev, windows).contains(k) || is_managed {
            rest
        } else {
            rest.push(dirs.last())
        }
    }
}

fn holds_key(keys: &Vec<String>, k: &str) -> (r: bool)
    ensures
        r == text::views(keys@).contains(k@),
{
    let mut i: usize = 0;
    while i < keys.len()
        invariant
            i <= keys.len(),
            forall|j: int| 0 <= j < i ==> keys@[j]@ != k@,
        decreases keys.len() - i,
    {
        if text::str_eq(keys[i].as_str(), k) {
            assert(text::views(keys@)[i as int] == k@);
            return true;
        }
        i = i + 1;
    }
    proof {
        if text::views(keys@).contains(k@) {
            let j = choose|j: int| 0 <= j < text::views(keys@).len() && text::views(keys@)[j] == k@;
            assert(keys@[j]@ == k@);
        }
    }
    false
}

/// The directories a sweep for stray copies looks in: `dirs` as gathered (everything
/// on `PATH`, then each channel's install directory), each once, without the managed
/// directory `managed`.
pub fn dirs_to_sweep(dirs: &Vec<String>, managed: Option<&str>, windows: bool) -> (r: Vec<String>)
    ensures
        text::views(r@) == swept_dirs(
            text::views(dirs@),
            match managed {
                Some(m) => Some(m@),
                None => None,
            },
            windows,
        ),
{
    let ghost dv = text::views(dirs@);
    let ghost mv = match managed {
        Some(m) => Some(m@),
        None => None::<Seq<char>>,
    };
    let managed_key: Option<String> = match managed {
        Some(m) => Some(canon_key(m, windows)),
        None => None,
    };
    let mut seen: Vec<String> = Vec::new();
    let mut out: Vec<String> = Vec::new();
    let mut i: usize = 0;
    while i < dirs.len()
        invariant
            i <= dirs.len(),
            dv == text::views(dirs@),
            mv == (match managed {
                Some(m) => Some(m@),
                None => None::<Seq<char>>,
            }),
            match managed_key {
                Some(k) => mv is Some && k@ == canon_text(mv->0, windows),
                None => mv is None,
            },
            text::views(seen@) == keys_view(dv.take(i as int), windows),
            text::views(out@) == swept_dirs(dv.take(i as int), mv, windows),
        decreases dirs.len() - i,
    {
        let ghost prefix = dv.take(i as int);
        assert(dv.take(i + 1).drop_last() =~= prefix);
        assert(dv.take(i + 1).last() == dirs@[i as int]@);
        let key = canon_key(dirs[i].as_str(), windows);
        let repeated = holds_key(&seen, key.as_str());
        let is_managed = match &managed_key {
            Some(m) => text::str_eq(m.as_str(), key.as_str()),
            None => false,
        };
        let ghost before_out = text::views(out@);
        if !repeated && !is_managed {
            out.push(dirs[i].clone());
            assert(text::views(out@) =~= before_out.push(dirs@[i as int]@));
        }
        let ghost before_seen = text::views(seen@);
        seen.push(key);
        assert(text::views(seen@) =~= before_seen.push(canon_text(dirs@[i as int]@, windows)));
        assert(keys_view(dv.take(i + 1), windows) =~= keys_view(prefix, windows).push(
            canon_text(dirs@[i as int]@, windows),
        ));
        i = i + 1;
    }
    assert(dv.take(i as int) =~= dv);
    out
}

} // verus!
